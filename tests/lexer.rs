use smartconf::classify::{blank, quote_char, unescape_char, word_char};
use smartconf::error::ErrorKind;
use smartconf::lexer::lex;
use smartconf::token::{Location, Token, TokenValue};

fn start(line: usize, column: usize) -> Location {
    Location { filename: "test.conf".to_string(), line_number: line, column_number: column }
}

fn positions(tokens: &[Token]) -> Vec<(usize, usize)> {
    tokens.iter().map(|t| (t.location.line_number, t.location.column_number)).collect()
}

fn identifier(t: &Token) -> Option<String> {
    match &t.value {
        TokenValue::Identifier(s) => Some(s.clone()),
        _ => None,
    }
}

#[test]
fn pair_tokens_and_locations() {
    let tokens = lex("a: \"x\"", &start(1, 1)).unwrap();
    assert_eq!(tokens.len(), 3);
    assert_eq!(identifier(&tokens[0]), Some("a".to_string()));
    assert!(matches!(tokens[1].value, TokenValue::SpecChar(':')));
    match &tokens[2].value {
        TokenValue::Quoted(s, q) => {
            assert_eq!(s, "x");
            assert_eq!(*q, '"');
        }
        other => panic!("unexpected token {:?}", other),
    }
    assert_eq!(positions(&tokens), vec![(1, 1), (1, 2), (1, 4)]);
    assert!(tokens.iter().all(|t| t.location.filename == "test.conf"));
}

#[test]
fn identifier_runs_and_single_special_characters() {
    let tokens = lex("key_1-x::=", &start(1, 1)).unwrap();
    assert_eq!(tokens.len(), 4);
    assert_eq!(identifier(&tokens[0]), Some("key_1-x".to_string()));
    assert!(matches!(tokens[1].value, TokenValue::SpecChar(':')));
    assert!(matches!(tokens[2].value, TokenValue::SpecChar(':')));
    assert!(matches!(tokens[3].value, TokenValue::SpecChar('=')));
    assert_eq!(positions(&tokens), vec![(1, 1), (1, 8), (1, 9), (1, 10)]);
}

#[test]
fn pending_identifier_is_emitted_at_end_of_input() {
    let tokens = lex("abc", &start(1, 1)).unwrap();
    assert_eq!(tokens.len(), 1);
    assert_eq!(identifier(&tokens[0]), Some("abc".to_string()));
}

#[test]
fn line_breaks_reset_the_column_to_the_starting_column() {
    let tokens = lex("ab\n  c\x0Bd\x0Ce", &start(5, 3)).unwrap();
    assert_eq!(positions(&tokens), vec![(5, 3), (6, 5), (7, 3), (8, 3)]);
}

#[test]
fn empty_and_blank_input_give_no_tokens() {
    assert!(lex("", &start(1, 1)).unwrap().is_empty());
    assert!(lex("  \t\r\n\n", &start(1, 1)).unwrap().is_empty());
}

#[test]
fn comment_is_skipped_to_end_of_line() {
    let tokens = lex("a # it's \"odd\" : x\nb", &start(1, 1)).unwrap();
    assert_eq!(tokens.len(), 2);
    assert_eq!(identifier(&tokens[0]), Some("a".to_string()));
    assert_eq!(identifier(&tokens[1]), Some("b".to_string()));
    assert_eq!(positions(&tokens), vec![(1, 1), (2, 1)]);
}

#[test]
fn comment_mark_inside_string_is_text() {
    let tokens = lex("'a # b'", &start(1, 1)).unwrap();
    assert_eq!(tokens.len(), 1);
    assert!(matches!(&tokens[0].value, TokenValue::Quoted(s, '\'') if s == "a # b"));
}

#[test]
fn escapes_are_decoded() {
    let tokens = lex("\"\\\\\\n\\t\\r\\0\\a\\b\\v\\f\\'\\\"\"", &start(1, 1)).unwrap();
    assert_eq!(tokens.len(), 1);
    match &tokens[0].value {
        TokenValue::Quoted(s, _) => assert_eq!(s, "\\\n\t\r\0\x07\x08\x0B\x0C'\""),
        other => panic!("unexpected token {:?}", other),
    }
}

#[test]
fn quotes_of_other_kinds_stay_inside_a_string() {
    let tokens = lex("`say \"hi\" 'x'`", &start(1, 1)).unwrap();
    assert_eq!(tokens.len(), 1);
    assert!(matches!(&tokens[0].value, TokenValue::Quoted(s, '`') if s == "say \"hi\" 'x'"));
}

#[test]
fn string_spanning_lines_moves_later_tokens_down() {
    let tokens = lex("\"a\nb\" c", &start(1, 1)).unwrap();
    assert_eq!(positions(&tokens), vec![(1, 1), (2, 4)]);
}

#[test]
fn unsupported_escape_is_an_error_at_its_character() {
    let e = lex("k: \"a\\qb\"", &start(1, 1)).unwrap_err();
    assert_eq!(e.kind, ErrorKind::BadEscape);
    assert_eq!((e.location.line_number, e.location.column_number), (1, 7));
    assert_eq!(e.location.filename, "test.conf");
}

#[test]
fn unterminated_string_is_an_error_at_its_opening_quote() {
    let e = lex("a: \"unterminated", &start(1, 1)).unwrap_err();
    assert_eq!(e.kind, ErrorKind::UnterminatedString);
    assert_eq!((e.location.line_number, e.location.column_number), (1, 4));
    assert_eq!(e.kind.message(), "unexpected end of input within string");
}

#[test]
fn tokens_stand_in_increasing_position() {
    let text = "host: \"localhost\"\n  port :'80' # note\n\nx: `a\nb` y z\n";
    let tokens = lex(text, &start(1, 1)).unwrap();
    let ps = positions(&tokens);
    assert_eq!(ps.len(), 11);
    for w in ps.windows(2) {
        let (a, b) = (w[0], w[1]);
        assert!(a.0 < b.0 || (a.0 == b.0 && a.1 < b.1), "{:?} then {:?}", a, b);
    }
}

#[test]
fn unicode_letters_form_identifiers() {
    assert!(word_char('é'));
    assert!(word_char('Ж'));
    assert!(word_char('7'));
    assert!(!word_char(':'));
    assert!(!word_char('\u{2003}'));
    let tokens = lex("clé: \"v\"", &start(1, 1)).unwrap();
    assert_eq!(identifier(&tokens[0]), Some("clé".to_string()));
    assert_eq!(positions(&tokens), vec![(1, 1), (1, 4), (1, 6)]);
}

#[test]
fn unicode_whitespace_separates_tokens() {
    assert!(blank('\u{2003}'));
    assert!(blank(' '));
    assert!(!blank('x'));
    let tokens = lex("a\u{2003}b", &start(1, 1)).unwrap();
    assert_eq!(tokens.len(), 2);
    assert_eq!(positions(&tokens), vec![(1, 1), (1, 3)]);
}

#[test]
fn escape_table_and_quote_classes() {
    assert_eq!(unescape_char('n'), Some('\n'));
    assert_eq!(unescape_char('0'), Some('\0'));
    assert_eq!(unescape_char('q'), None);
    assert!(quote_char('`'));
    assert!(!quote_char('#'));
}
