use sublint::content::{CheckSummary, Content};
use sublint::lints::{Lint, Lints};
use sublint::message::{Message, ParseError};

type Errors = Vec<(i32, Vec<(&'static str, &'static str)>)>;

fn codes_of(failed: &[Lints]) -> Vec<&'static str> {
    failed.iter().map(|l| l.code()).collect()
}

#[test]
fn check_on_clean_text_reports_nothing() {
    assert!(Lints::check_on("This is a test").is_empty());
    assert!(Lints::check_on("-Hi!\n-Hello!").is_empty());
}

#[test]
fn check_on_is_deterministic() {
    let a = codes_of(&Lints::check_on("This  is, a test. "));
    let b = codes_of(&Lints::check_on("This  is, a test. "));
    assert_eq!(a, b);
}

#[test]
fn check_on_reports_double_space() {
    let codes = codes_of(&Lints::check_on("This  is a test"));
    assert!(codes.contains(&"LXX-001"));
}

#[test]
fn check_on_keeps_catalog_order() {
    let codes = codes_of(&Lints::check_on(" This  is, a test. "));
    assert_eq!(codes, vec!["LXX-001", "LXX-002", "LXX-003", "NX1-001", "NX12-001"]);
}

#[test]
fn scenario_double_space_only() {
    let c = Content::from_str("1\nThis  is a test").unwrap();
    let mut errors: Errors = Vec::new();
    let summary = c.check(&mut errors).unwrap_err();
    assert_eq!(summary, CheckSummary { total: 1, failed_messages: 1, failed_lints: 1 });
    assert_eq!(errors.len(), 1);
    assert_eq!(errors[0].0, 1);
    assert_eq!(errors[0].1, vec![("LXX-001", "No double space allowed")]);
}

#[test]
fn scenario_trailing_space_only() {
    let c = Content::from_str("2\nThis is a test ").unwrap();
    let mut errors: Errors = Vec::new();
    let summary = c.check(&mut errors).unwrap_err();
    assert_eq!(summary, CheckSummary { total: 1, failed_messages: 1, failed_lints: 1 });
    assert_eq!(errors[0].0, 2);
    assert_eq!(errors[0].1, vec![("LXX-002", "No trailing space allowed")]);
}

#[test]
fn scenario_hyphen_mismatch() {
    let c = Content::from_str("3\n- This is a test\nThis is a test").unwrap();
    let mut errors: Errors = Vec::new();
    let summary = c.check(&mut errors).unwrap_err();
    assert_eq!(errors[0].0, 3);
    let codes: Vec<&str> = errors[0].1.iter().map(|e| e.0).collect();
    assert!(codes.contains(&"NX05-001-1"));
    assert_eq!(summary.total, 1);
    assert_eq!(summary.failed_messages, 1);
}

#[test]
fn scenario_duplicated_punctuation_only() {
    let c = Content::from_str("4\nThis is a test!!").unwrap();
    let mut errors: Errors = Vec::new();
    let summary = c.check(&mut errors).unwrap_err();
    assert_eq!(summary, CheckSummary { total: 1, failed_messages: 1, failed_lints: 1 });
    assert_eq!(errors[0].0, 4);
    assert_eq!(errors[0].1, vec![("NX12-009", "No duplicated punctuation allowed")]);
}

#[test]
fn scenario_valid_block() {
    let c = Content::from_str("5\nThis is a test").unwrap();
    let mut errors: Errors = Vec::new();
    assert_eq!(c.check(&mut errors), Ok(1));
    assert!(errors.is_empty());
}

#[test]
fn scenario_malformed_id_is_a_parse_error() {
    assert_eq!(Content::from_str("not-an-id\nSome text").unwrap_err(), ParseError::InvalidId);
}

#[test]
fn empty_input_is_empty_content() {
    let c = Content::from_str("").unwrap();
    assert_eq!(c.iter().len(), 0);
    let mut errors: Errors = Vec::new();
    assert_eq!(c.check(&mut errors), Ok(0));
    assert!(errors.is_empty());
}

#[test]
fn whitespace_only_input_is_empty_content() {
    let c = Content::from_str(" \t\n\n  \n").unwrap();
    assert_eq!(c.iter().len(), 0);
    let mut errors: Errors = Vec::new();
    assert_eq!(c.check(&mut errors), Ok(0));
}

#[test]
fn parse_keeps_every_span_in_order() {
    let c = Content::from_str("10\nA\n\n20\nB\n\n30\nC").unwrap();
    let ids: Vec<i32> = c.iter().iter().map(|m| m.id).collect();
    assert_eq!(ids, vec![10, 20, 30]);
    let texts: Vec<&str> = c.iter().iter().map(|m| m.content.as_str()).collect();
    assert_eq!(texts, vec!["A", "B", "C"]);
}

#[test]
fn check_counts_sum_over_blocks() {
    // block 1 is clean, block 2 fails one rule, block 3 fails two rules
    let raw = "1\nGood text\n\n2\nAlso  bad\n\n3\n- This is a test\nThis is a test";
    let c = Content::from_str(raw).unwrap();
    let mut errors: Errors = Vec::new();
    let summary = c.check(&mut errors).unwrap_err();
    assert_eq!(summary.total, 3);
    assert_eq!(summary.failed_messages, 2);
    let rule_sum: usize = errors.iter().map(|e| e.1.len()).sum();
    assert_eq!(summary.failed_lints as usize, rule_sum);
    let ids: Vec<i32> = errors.iter().map(|e| e.0).collect();
    assert_eq!(ids, vec![2, 3]);
}

#[test]
fn separator_matches_leftmost_first() {
    // "1\nx\n\n\n2\ny" splits into "1\nx" and "\n2\ny"; the second span's
    // first line is empty, which is no integer
    assert_eq!(Content::from_str("1\nx\n\n\n2\ny").unwrap_err(), ParseError::InvalidId);
    // "1\nx\n\n\n\n2\ny" splits into "1\nx", "" and "2\ny"; the empty span
    // has no newline at all
    assert_eq!(Content::from_str("1\nx\n\n\n\n2\ny").unwrap_err(), ParseError::MissingNewline);
}

#[test]
fn message_without_newline_is_a_parse_error() {
    assert_eq!(Message::from_str("only one line").unwrap_err(), ParseError::MissingNewline);
}

#[test]
fn message_id_bounds() {
    assert_eq!(Message::from_str("2147483647\nx").unwrap().id, 2147483647);
    assert_eq!(Message::from_str("-2147483648\nx").unwrap().id, -2147483648);
    assert_eq!(Message::from_str("2147483648\nx").unwrap_err(), ParseError::InvalidId);
    assert_eq!(Message::from_str("-2147483649\nx").unwrap_err(), ParseError::InvalidId);
    assert_eq!(Message::from_str("+7\nx").unwrap().id, 7);
    assert_eq!(Message::from_str("\nx").unwrap_err(), ParseError::InvalidId);
}

#[test]
fn message_text_is_kept_verbatim() {
    let m = Message::from_str("9\n  padded \nsecond").unwrap();
    assert_eq!(m.id, 9);
    assert_eq!(m.content, "  padded \nsecond");
}

#[test]
fn message_check_pushes_one_entry() {
    let m = Message { id: 42, content: String::from("Tail space ") };
    let mut errors: Errors = Vec::new();
    assert_eq!(m.check(&mut errors), Err(1));
    assert_eq!(errors.len(), 1);
    assert_eq!(errors[0].0, 42);
    assert_eq!(errors[0].1, vec![("LXX-002", "No trailing space allowed")]);

    let ok = Message { id: 43, content: String::from("This is a test") };
    assert_eq!(ok.check(&mut errors), Ok(()));
    assert_eq!(errors.len(), 1);
}

#[test]
fn crlf_terminators_are_line_endings() {
    // the \r of a \r\n belongs to the terminator, not to the line
    assert!(Lints::check_on("First line ok\r\nSecond fine").is_empty());
    // a lone \r stays in the line and counts as trailing whitespace
    let codes = codes_of(&Lints::check_on("Broken line\r"));
    assert!(codes.contains(&"LXX-002"));
}
