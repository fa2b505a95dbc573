use smartconf::generator::parse;
use smartconf::lexer::lex;
use smartconf::render::{generate_output, push_str, repr, Format};
use smartconf::token::{Location, TokenValue};

fn start() -> Location {
    Location { filename: "test.conf".to_string(), line_number: 1, column_number: 1 }
}

#[test]
fn end_to_end_vim() {
    let m = parse("host: \"localhost\"\nport: \"8080\" # default\n", &start()).unwrap();
    let out = generate_output(&m, Format::Vim, "config");
    assert_eq!(
        out,
        "let g:config = {\n\\    'host': \"localhost\",\n\\    'port': \"8080\",\n\\}\n"
    );
    let again = parse("host: \"localhost\"\nport: \"8080\" # default\n", &start()).unwrap();
    assert_eq!(generate_output(&again, Format::Vim, "config"), out);
}

#[test]
fn end_to_end_json() {
    let m = parse("host: \"localhost\"\nport: \"8080\"\n", &start()).unwrap();
    let out = generate_output(&m, Format::Json, "ignored");
    assert_eq!(out, "{\n    \"host\": \"localhost\",\n    \"port\": \"8080\",\n}\n");
}

#[test]
fn empty_mapping_renders_braces_only() {
    let m = parse("", &start()).unwrap();
    assert_eq!(generate_output(&m, Format::Vim, "x"), "let g:x = {\n\\}\n");
    assert_eq!(generate_output(&m, Format::Json, "x"), "{\n}\n");
}

#[test]
fn values_are_escaped_in_output() {
    let m = parse("k: 'a\\nb\"c'", &start()).unwrap();
    assert_eq!(generate_output(&m, Format::Json, "v"), "{\n    \"k\": \"a\\nb\\\"c\",\n}\n");
}

#[test]
fn repr_escapes_table_characters() {
    assert_eq!(repr("plain"), "plain");
    assert_eq!(repr("a\nb"), "a\\nb");
    assert_eq!(
        repr("\\\n\t\r\0\x07\x08\x0B\x0C'\""),
        "\\\\\\n\\t\\r\\0\\a\\b\\v\\f\\'\\\""
    );
    assert_eq!(repr(""), "");
}

#[test]
fn escaped_rendering_reads_back_exactly() {
    let samples = ["", "plain", "tab\there", "quote \" and ' and \\", "\0\x07\x08\x0B\x0C\r\n", "mixed `x` é"];
    for s in samples.iter() {
        for q in ['"', '\''].iter() {
            let text = format!("{}{}{}", q, repr(s), q);
            let tokens = lex(&text, &start()).unwrap();
            assert_eq!(tokens.len(), 1);
            match &tokens[0].value {
                TokenValue::Quoted(v, quote) => {
                    assert_eq!(v, s);
                    assert_eq!(quote, q);
                }
                other => panic!("unexpected token {:?}", other),
            }
        }
    }
}

#[test]
fn push_str_appends() {
    let mut s = "ab".to_string();
    push_str(&mut s, "cd");
    assert_eq!(s, "abcd");
}
