use display_switch::selection::{parse_selection, Selection};
use display_switch::text::{contains_str, trim_str, uncomment_str};

#[test]
fn quit_in_either_case() {
    assert_eq!(parse_selection("q", 3), Selection::Quit);
    assert_eq!(parse_selection(" Q \n", 3), Selection::Quit);
    assert_eq!(parse_selection("q", 0), Selection::Quit);
}

#[test]
fn numbers_in_range() {
    assert_eq!(parse_selection("1", 3), Selection::Choose(0));
    assert_eq!(parse_selection("3\n", 3), Selection::Choose(2));
    assert_eq!(parse_selection("+2", 3), Selection::Choose(1));
    assert_eq!(parse_selection("002", 3), Selection::Choose(1));
}

#[test]
fn invalid_answers() {
    assert_eq!(parse_selection("0", 3), Selection::Invalid);
    assert_eq!(parse_selection("4", 3), Selection::Invalid);
    assert_eq!(parse_selection("", 3), Selection::Invalid);
    assert_eq!(parse_selection("+", 3), Selection::Invalid);
    assert_eq!(parse_selection("-1", 3), Selection::Invalid);
    assert_eq!(parse_selection("1 2", 3), Selection::Invalid);
    assert_eq!(parse_selection("quit", 3), Selection::Invalid);
    assert_eq!(parse_selection("1", 0), Selection::Invalid);
    assert_eq!(parse_selection("99999999999999999999999999", usize::MAX), Selection::Invalid);
}

#[test]
fn largest_choice() {
    assert_eq!(parse_selection(&usize::MAX.to_string(), usize::MAX), Selection::Choose(usize::MAX - 1));
}

#[test]
fn trimming() {
    assert_eq!(trim_str("  a b \t"), "a b");
    assert_eq!(trim_str("\u{3000}x\u{a0}"), "x");
    assert_eq!(trim_str("   "), "");
}

#[test]
fn uncommenting() {
    assert_eq!(uncomment_str("output X"), "output X");
    assert_eq!(uncomment_str("#output X"), "output X");
    assert_eq!(uncomment_str("### \t output X"), "output X");
    assert_eq!(uncomment_str("# # output X"), "# output X");
    assert_eq!(uncomment_str("#  "), "");
}

#[test]
fn substring_search() {
    assert!(contains_str("# Display Start here", "Display Start"));
    assert!(!contains_str("# Display Star", "Display Start"));
    assert!(contains_str("abc", ""));
    assert!(!contains_str("", "a"));
}
