use smartconf::error::ErrorKind;
use smartconf::generator::{generate_mapping, parse};
use smartconf::mapping::{Item, Mapping};
use smartconf::token::{Location, Token, TokenValue};

fn start() -> Location {
    Location { filename: "test.conf".to_string(), line_number: 1, column_number: 1 }
}

fn entries(m: &Mapping) -> Vec<(String, String)> {
    (0..m.len()).map(|i| (m.key_at(i).clone(), m.value_at(i).to_string())).collect()
}

fn pairs(list: &[(&str, &str)]) -> Vec<(String, String)> {
    list.iter().map(|(k, v)| (k.to_string(), v.to_string())).collect()
}

fn tok(line: usize, column: usize, value: TokenValue) -> Token {
    Token {
        location: Location { filename: "t".to_string(), line_number: line, column_number: column },
        value,
    }
}

#[test]
fn single_pair_gives_one_entry() {
    let m = parse("name: \"value\"", &start()).unwrap();
    assert_eq!(entries(&m), pairs(&[("name", "value")]));
    let m = parse("name:\"value\"", &start()).unwrap();
    assert_eq!(entries(&m), pairs(&[("name", "value")]));
    let m = parse("name \t:  \"va#lue\"", &start()).unwrap();
    assert_eq!(entries(&m), pairs(&[("name", "va#lue")]));
}

#[test]
fn duplicate_keys_last_write_wins() {
    let m = parse("a: \"1\"\na: \"2\"", &start()).unwrap();
    assert_eq!(entries(&m), pairs(&[("a", "2")]));
    assert_eq!(m.get(&"a".to_string()).map(|i| i.to_string()), Some("2".to_string()));
}

#[test]
fn overwritten_key_keeps_its_place() {
    let m = parse("a: \"1\"\nb: \"2\"\na: \"3\"", &start()).unwrap();
    assert_eq!(entries(&m), pairs(&[("a", "3"), ("b", "2")]));
}

#[test]
fn missing_colon_is_reported_at_the_string() {
    let e = parse("a \"x\"", &start()).unwrap_err();
    assert_eq!(e.kind, ErrorKind::ExpectedColon);
    assert_eq!((e.location.line_number, e.location.column_number), (1, 3));
    assert_eq!(e.kind.message(), "expected `:`");
    let e = parse("a = \"x\"", &start()).unwrap_err();
    assert_eq!(e.kind, ErrorKind::ExpectedColon);
    assert_eq!((e.location.line_number, e.location.column_number), (1, 3));
}

#[test]
fn unterminated_string_is_fatal() {
    let e = parse("a: \"unterminated", &start()).unwrap_err();
    assert_eq!(e.kind, ErrorKind::UnterminatedString);
    assert_eq!((e.location.line_number, e.location.column_number), (1, 4));
}

#[test]
fn key_must_be_an_identifier() {
    let e = parse("\"a\": \"x\"", &start()).unwrap_err();
    assert_eq!(e.kind, ErrorKind::ExpectedIdentifier);
    assert_eq!((e.location.line_number, e.location.column_number), (1, 1));
    assert_eq!(e.kind.message(), "expected identifier");
}

#[test]
fn value_must_be_a_string() {
    let e = parse("a: b", &start()).unwrap_err();
    assert_eq!(e.kind, ErrorKind::ExpectedString);
    assert_eq!((e.location.line_number, e.location.column_number), (1, 4));
}

#[test]
fn input_ending_inside_a_pair_is_fatal() {
    let e = parse("a: \"1\"\nb", &start()).unwrap_err();
    assert_eq!(e.kind, ErrorKind::IncompletePair);
    assert_eq!((e.location.line_number, e.location.column_number), (2, 1));
    let e = parse("b :", &start()).unwrap_err();
    assert_eq!(e.kind, ErrorKind::IncompletePair);
    assert_eq!((e.location.line_number, e.location.column_number), (1, 3));
}

#[test]
fn empty_input_gives_empty_mapping() {
    assert_eq!(parse("", &start()).unwrap().len(), 0);
    assert_eq!(parse("# only a comment\n", &start()).unwrap().len(), 0);
}

#[test]
fn comment_on_its_own_line_changes_nothing() {
    let plain = parse("a: \"1\"\nb: \"2\"\n", &start()).unwrap();
    let commented = parse("a: \"1\"\n# b: \"3\" it's\nb: \"2\"\n", &start()).unwrap();
    assert_eq!(entries(&plain), entries(&commented));
    let first = parse("# heading\na: \"1\"\nb: \"2\"\n", &start()).unwrap();
    assert_eq!(entries(&plain), entries(&first));
}

#[test]
fn trailing_comment_changes_nothing() {
    let plain = parse("a: \"1\"\nb: \"2\"", &start()).unwrap();
    let commented = parse("a: \"1\" # one\nb: \"2\"#two", &start()).unwrap();
    assert_eq!(entries(&plain), entries(&commented));
    let inside = parse("a: # the value follows\n\"1\"\nb: \"2\"", &start()).unwrap();
    assert_eq!(entries(&plain), entries(&inside));
}

#[test]
fn generator_skips_tokens_on_a_comment_line() {
    let tokens = vec![
        tok(1, 1, TokenValue::Identifier("a".to_string())),
        tok(1, 2, TokenValue::SpecChar('#')),
        tok(1, 4, TokenValue::Identifier("junk".to_string())),
        tok(2, 1, TokenValue::SpecChar(':')),
        tok(2, 3, TokenValue::Quoted("v".to_string(), '\'')),
    ];
    let m = generate_mapping(&tokens).unwrap();
    assert_eq!(entries(&m), pairs(&[("a", "v")]));
}

#[test]
fn generator_reports_the_offending_token() {
    let tokens = vec![
        tok(3, 7, TokenValue::Identifier("a".to_string())),
        tok(3, 9, TokenValue::Identifier("b".to_string())),
    ];
    let e = generate_mapping(&tokens).unwrap_err();
    assert_eq!(e.kind, ErrorKind::ExpectedColon);
    assert_eq!((e.location.line_number, e.location.column_number), (3, 9));
    assert_eq!(e.location.filename, "t");
}

#[test]
fn mapping_insert_and_get() {
    let mut m = Mapping::new();
    m.insert("x".to_string(), Item::Text("1".to_string()));
    m.insert("y".to_string(), Item::Text("2".to_string()));
    m.insert("x".to_string(), Item::Text("3".to_string()));
    assert_eq!(m.len(), 2);
    assert_eq!(entries(&m), pairs(&[("x", "3"), ("y", "2")]));
    assert!(m.get(&"z".to_string()).is_none());
}

#[test]
fn nested_item_reads_as_its_leaf() {
    let item = Item::Nested(Box::new(Item::Nested(Box::new(Item::Text("deep".to_string())))));
    assert_eq!(item.to_string(), "deep");
}
