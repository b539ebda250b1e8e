use typeref::text::{
    contains_char, contains_marker, contains_separator, find_last_separator, join, qualify,
    strip_qualifier,
};

fn strings(items: &[&str]) -> Vec<String> {
    items.iter().map(|item| item.to_string()).collect()
}

#[test]
fn contains_char_finds_any_position() {
    assert!(contains_char("abc", 'a'));
    assert!(contains_char("abc", 'b'));
    assert!(contains_char("abc", 'c'));
    assert!(!contains_char("abc", 'd'));
    assert!(!contains_char("", 'a'));
    assert!(contains_char("añb", 'ñ'));
    assert!(!contains_char("añb", 'n'));
}

#[test]
fn contains_marker_looks_for_the_open_bracket() {
    assert!(contains_marker("Vec<u8>"));
    assert!(contains_marker("<"));
    assert!(contains_marker("a < b"));
    assert!(!contains_marker("Vec"));
    assert!(!contains_marker("u8>"));
    assert!(!contains_marker(""));
}

#[test]
fn find_last_separator_counts_characters() {
    assert_eq!(find_last_separator(""), None);
    assert_eq!(find_last_separator(":"), None);
    assert_eq!(find_last_separator("a:b:c"), None);
    assert_eq!(find_last_separator("::"), Some(0));
    assert_eq!(find_last_separator("a::b"), Some(1));
    assert_eq!(find_last_separator("a::b::c"), Some(4));
    assert_eq!(find_last_separator(":::"), Some(1));
    assert_eq!(find_last_separator("::::"), Some(2));
    assert_eq!(find_last_separator("a::"), Some(1));
    assert_eq!(find_last_separator("ññ::b"), Some(2));
}

#[test]
fn contains_separator_needs_two_colons_in_a_row() {
    assert!(contains_separator("a::b"));
    assert!(contains_separator("::"));
    assert!(!contains_separator("a:b:c"));
    assert!(!contains_separator(": :"));
    assert!(!contains_separator(""));
}

#[test]
fn strip_qualifier_keeps_the_tail() {
    assert_eq!(strip_qualifier("foo::Vec"), "Vec");
    assert_eq!(strip_qualifier("u8"), "u8");
    assert_eq!(strip_qualifier("a::b::c"), "c");
    assert_eq!(strip_qualifier("a::"), "");
    assert_eq!(strip_qualifier(":::x"), "x");
    assert_eq!(strip_qualifier("ñ::é::ü"), "ü");
}

#[test]
fn qualify_puts_a_separator_between() {
    assert_eq!(qualify("foo", "Vec"), "foo::Vec");
    assert_eq!(qualify("a::b", "c"), "a::b::c");
    assert_eq!(qualify("", ""), "::");
}

#[test]
fn join_separates_neighbours() {
    assert_eq!(join(&strings(&[])), "");
    assert_eq!(join(&strings(&["a"])), "a");
    assert_eq!(join(&strings(&["a", "b"])), "a::b");
    assert_eq!(join(&strings(&["std", "vec", "Vec"])), "std::vec::Vec");
    assert_eq!(join(&strings(&["", ""])), "::");
}
