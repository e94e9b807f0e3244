use mdt::expand::{expand_symbol_list, expands, try_expand_symbol_list, ALPHABET};

fn chars(s: &str) -> Vec<char> {
    s.chars().collect()
}

fn expand(s: &str, compl: bool) -> Option<String> {
    try_expand_symbol_list(&chars(s), compl).map(|v| v.into_iter().collect())
}

#[test]
fn range_of_letters_ascending() {
    assert_eq!(expand("A..D", false), Some("ABCD".to_string()));
}

#[test]
fn range_of_letters_descending() {
    assert_eq!(expand("D..A", false), Some("DCBA".to_string()));
}

#[test]
fn range_of_digits_inside_list() {
    assert_eq!(expand("X0..3Y", false), Some("X0123Y".to_string()));
}

#[test]
fn chained_ranges() {
    assert_eq!(expand("1..3..1", false), Some("12321".to_string()));
}

#[test]
fn adjacent_and_equal_ends() {
    assert_eq!(expand("A..B", false), Some("AB".to_string()));
    assert_eq!(expand("A..A", false), Some("AA".to_string()));
}

#[test]
fn list_without_range_is_unchanged() {
    assert_eq!(expand("AB=?", false), Some("AB=?".to_string()));
}

#[test]
fn range_of_digit_and_letter_is_refused() {
    assert_eq!(expand("A..5", false), None);
}

#[test]
fn range_without_start_is_refused() {
    assert_eq!(expand("..A", false), None);
    assert_eq!(expand("A..", false), None);
}

#[test]
fn three_dots_leave_a_dot_start() {
    assert_eq!(expand("A...B", false), None);
}

#[test]
fn complement_of_nothing_is_the_alphabet() {
    assert_eq!(expand("", true), Some(ALPHABET.to_string()));
}

#[test]
fn complement_removes_every_occurrence() {
    let expected: String = ALPHABET.chars().filter(|c| *c != '-').collect();
    assert_eq!(expand("-", true), Some(expected));
}

#[test]
fn complement_of_a_range() {
    let expected: String = ALPHABET.chars().filter(|c| !c.is_ascii_uppercase()).collect();
    assert_eq!(expand("A..Z", true), Some(expected));
}

#[test]
fn well_formed_list_is_expanded_directly() {
    let list = chars("0..3X");
    assert!(expands(&list, false));
    let out: String = expand_symbol_list(&list, false).into_iter().collect();
    assert_eq!(out, "0123X");
}

#[test]
fn malformed_ranges_are_recognised_before_expanding() {
    assert!(!expands(&chars("1..A"), false));
    assert!(!expands(&chars("..A"), true));
    assert!(!expands(&chars("A.."), false));
    assert!(expands(&chars("A..C"), true));
}
