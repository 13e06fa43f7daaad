use sublint::lints::Lint;
use sublint::rules::{
    CharMaxPerLine, DoubleSpace, EmptyLines, FitOnOneLine, HyphenTwoLines, HyphenWithoutSpace,
    LeadingSpace, LineCount, NoCommaOrPeriod, NoDuplicatedPunctuation, NoFullWidthNumber,
    NoU22EFEllipsis, QuotesMismatchClosingOnly, QuotesMismatchOpeningOnly, TrailingSpace,
};

#[test]
fn test_line_count() {
    let l = LineCount::default();
    assert!(l.lint("This is line 1"));
    assert!(l.lint("This is line 1\nThis is line 2"));
    assert!(!l.lint("This is line 1\nThis is line 2\nThis is line 3"));
}

#[test]
fn test_char_max_per_line() {
    let l = CharMaxPerLine::default();
    assert!(l.lint("This line has 16\nThis has less"));
    assert!(!l.lint("This line has more than 16 characters"));
}

#[test]
fn test_fit_on_one_line() {
    let l = FitOnOneLine;
    assert!(!l.lint("Length of\n16 chr"));
    assert!(l.lint("This line\n has more than 16"));
    assert!(l.lint("- short\n- dialog"));
}

#[test]
fn test_double_space() {
    let l = DoubleSpace::default();
    assert!(l.lint("This is a test"));
    assert!(!l.lint("This  is a test"));
}

#[test]
fn test_trailing_space() {
    let l = TrailingSpace::default();
    assert!(l.lint("This is a test"));
    assert!(!l.lint("This is a test "));
}

#[test]
fn test_leading_space() {
    let l = LeadingSpace::default();
    assert!(l.lint("This is a test"));
    assert!(!l.lint(" This is a test"));
}

#[test]
fn test_empty_lines() {
    let l = EmptyLines::default();
    assert!(l.lint("This is a test"));
    assert!(!l.lint("This is a test\n\nThis is a test"));
}

#[test]
fn test_hyphen_two_lines() {
    let l = HyphenTwoLines::default();
    assert!(l.lint("This is a test"));
    assert!(l.lint("- This is a test\n- This is a test"));
    assert!(!l.lint("- This is a test\nThis is a test"));
    assert!(!l.lint("This is a test\n- This is a test"));
}

#[test]
fn test_hyphen_without_space() {
    let l = HyphenWithoutSpace::default();
    assert!(l.lint("This is a test"));
    assert!(l.lint("-This is a test"));
    assert!(!l.lint("- This is a test"));
    assert!(!l.lint("-"));
}

#[test]
fn test_no_duplicated_punctuation() {
    let l = NoDuplicatedPunctuation::default();
    assert!(l.lint("This is a test"));
    assert!(l.lint("This is a test!"));
    assert!(!l.lint("This is a test!!"));
    assert!(!l.lint("This is a test？？"));
    assert!(!l.lint("This is a test！？"));
    assert!(!l.lint("This is a test！！"));
    assert!(!l.lint("This is a test……"));
}

#[test]
fn test_no_full_width_number() {
    let l = NoFullWidthNumber::default();
    assert!(l.lint("This is a test"));
    assert!(l.lint("This is a test 1"));
    assert!(!l.lint("This is a test １"));
}

#[test]
fn test_no_comma_or_period() {
    let l = NoCommaOrPeriod::default();
    assert!(l.lint("This is a test"));
    assert!(!l.lint("This is a test,"));
    assert!(!l.lint("This is a test."));
    assert!(!l.lint("This is a test,."));
}

#[test]
fn test_no_u22ef_ellipsis() {
    let l = NoU22EFEllipsis::default();
    assert!(l.lint("This is a test…"));
    assert!(!l.lint("This is a test⋯"));
}

#[test]
fn test_quotes_mismatch_opening_only() {
    let l = QuotesMismatchOpeningOnly::default();
    assert!(l.lint("This is a test"));
    assert!(!l.lint("“This is a test"));

    assert!(l.lint("This is a test “”"));
}

#[test]
fn test_quotes_mismatch_closing_only() {
    let l = QuotesMismatchClosingOnly::default();
    assert!(l.lint("This is a test"));
    assert!(!l.lint("This is a test”"));
    assert!(l.lint("This is a test “”"));
}
