use glpi_notifier::rows::{extract_i64, extract_string, parse_ticket_rows, row_to_ticket, Cell, Row, RowSet};
use glpi_notifier::text::{concatenated, is_whitespace, parse_i64, same_text, trim, trim_end_matches};

fn text(s: &str) -> Cell {
    Cell::Text(s.to_string())
}

fn num(v: i64) -> Cell {
    Cell::Number { int_value: Some(v), text: v.to_string() }
}

fn row(fields: Vec<(&str, Cell)>) -> Row {
    Row { fields: fields.into_iter().map(|(k, v)| (k.to_string(), v)).collect() }
}

#[test]
fn malformed_row_is_dropped_and_siblings_kept() {
    let rows = vec![
        row(vec![("2", num(11)), ("1", text("Printer"))]),
        row(vec![("2", text("abc")), ("1", text("Broken"))]),
        row(vec![("1", text("No id"))]),
        row(vec![("2", text(" 13 ")), ("1", text("  Mail  ")), ("4", num(7))]),
    ];
    let out = parse_ticket_rows(&RowSet::Array(rows), 2, 1, Some(4));
    assert_eq!(out.len(), 2);
    assert_eq!(out[0].id, 11);
    assert_eq!(out[0].name, "Printer");
    assert_eq!(out[0].requester, None);
    assert_eq!(out[1].id, 13);
    assert_eq!(out[1].name, "Mail");
    assert_eq!(out[1].requester, Some("7".to_string()));
}

#[test]
fn object_rows_are_flattened() {
    let rows = vec![
        ("a".to_string(), row(vec![("2", num(5))])),
        ("b".to_string(), row(vec![("2", num(6)), ("1", Cell::Other)])),
    ];
    let out = parse_ticket_rows(&RowSet::Object(rows), 2, 1, None);
    assert_eq!(out.iter().map(|t| t.id).collect::<Vec<_>>(), vec![5, 6]);
    assert_eq!(out[1].name, "");
}

#[test]
fn other_payload_gives_no_rows() {
    assert!(parse_ticket_rows(&RowSet::Other, 2, 1, None).is_empty());
}

#[test]
fn negative_field_key_is_decimal() {
    let rows = vec![row(vec![("-3", num(9))])];
    let out = parse_ticket_rows(&RowSet::Array(rows), -3, 1, None);
    assert_eq!(out[0].id, 9);
}

#[test]
fn row_to_ticket_reads_requester_key() {
    let r = row(vec![("id", num(1)), ("n", text("x")), ("req", text(" Ann "))]);
    let t = row_to_ticket(&r, "id", "n", Some("req")).unwrap();
    assert_eq!(t.requester, Some("Ann".to_string()));
    assert!(row_to_ticket(&r, "missing", "n", None).is_none());
}

#[test]
fn number_beyond_i64_is_no_identifier() {
    let c = Cell::Number { int_value: None, text: "18446744073709551615".to_string() };
    assert_eq!(extract_i64(&c), None);
    assert_eq!(extract_string(&c), Some("18446744073709551615".to_string()));
    assert_eq!(extract_i64(&Cell::Other), None);
    assert_eq!(extract_string(&Cell::Other), None);
}

#[test]
fn parse_i64_cases() {
    assert_eq!(parse_i64("42"), Some(42));
    assert_eq!(parse_i64("+7"), Some(7));
    assert_eq!(parse_i64("-9223372036854775808"), Some(i64::MIN));
    assert_eq!(parse_i64("9223372036854775807"), Some(i64::MAX));
    assert_eq!(parse_i64("9223372036854775808"), None);
    assert_eq!(parse_i64("-9223372036854775809"), None);
    assert_eq!(parse_i64("123456789012345678901234567890"), None);
    assert_eq!(parse_i64(""), None);
    assert_eq!(parse_i64("-"), None);
    assert_eq!(parse_i64(" 1"), None);
    assert_eq!(parse_i64("1x"), None);
    assert_eq!(parse_i64("007"), Some(7));
}

#[test]
fn trim_cases() {
    assert_eq!(trim("  a b \t\n"), "a b");
    assert_eq!(trim("\u{3000}x\u{a0}"), "x");
    assert_eq!(trim("   "), "");
    assert!(is_whitespace('\u{2028}'));
    assert!(!is_whitespace('x'));
}

#[test]
fn trim_end_matches_cases() {
    assert_eq!(trim_end_matches("http://h/api///", "/"), "http://h/api");
    assert_eq!(trim_end_matches("x/initSession/initSession", "/initSession"), "x");
    assert_eq!(trim_end_matches("abc", "/"), "abc");
}

#[test]
fn text_helpers() {
    assert!(same_text("abc", "abc"));
    assert!(!same_text("abc", "abd"));
    assert!(!same_text("ab", "abc"));
    assert_eq!(concatenated("ab", "cd"), "abcd");
}

#[test]
fn trim_end_matches_empty_pattern_keeps_input() {
    assert_eq!(trim_end_matches("abc//", ""), "abc//");
}
