use lightning_manager::text::{
    contains_str, count_matches, eq_ignore_ascii_case, join_strings, pad_decimal, replace_str,
    same_text, split_str, starts_with_str, trim,
};

#[test]
fn trim_removes_surrounding_white_space() {
    assert_eq!(trim("  C:\\Games \t\n"), "C:\\Games");
    assert_eq!(trim("   "), "");
    assert_eq!(trim("a b"), "a b");
}

#[test]
fn pad_decimal_pads_on_the_left() {
    assert_eq!(pad_decimal(7, 2), "07");
    assert_eq!(pad_decimal(2024, 4), "2024");
    assert_eq!(pad_decimal(12345, 2), "12345");
    assert_eq!(pad_decimal(0, 0), "0");
}

#[test]
fn replace_every_occurrence() {
    assert_eq!(replace_str("a-b-c", "-", ""), "abc");
    assert_eq!(replace_str("fullscreen:true\nx:true", "true", "false"), "fullscreen:false\nx:false");
    assert_eq!(replace_str("aaa", "aa", "b"), "ba");
}

#[test]
fn count_non_overlapping_matches() {
    assert_eq!(count_matches("a.jar;b.jar;c.zip", ".jar"), 2);
    assert_eq!(count_matches("aaaa", "aa"), 2);
    assert_eq!(count_matches("", ".jar"), 0);
}

#[test]
fn join_with_separator() {
    let items = vec!["a".to_string(), "b".to_string(), "c".to_string()];
    assert_eq!(join_strings(&items, ";"), "a;b;c");
    assert_eq!(join_strings(&Vec::new(), ";"), "");
}

#[test]
fn split_keeps_empty_pieces() {
    assert_eq!(split_str("a;;b", ';'), vec!["a", "", "b"]);
    assert_eq!(split_str("", ';'), vec![""]);
}

#[test]
fn search_helpers() {
    assert!(contains_str("fullscreen:true", "screen"));
    assert!(!contains_str("abc", "abd"));
    assert!(starts_with_str("Error: x", "Error"));
    assert!(!starts_with_str("Err", "Error"));
    assert!(same_text("a", "a"));
    assert!(!same_text("a", "A"));
}

#[test]
fn ascii_case_helpers() {
    assert!(eq_ignore_ascii_case("Windows", "windows"));
    assert!(eq_ignore_ascii_case("WINDOWS", "windows"));
    assert!(!eq_ignore_ascii_case("linux", "windows"));
}

#[test]
fn empty_pattern_matches_every_boundary() {
    assert_eq!(replace_str("abc", "", "-"), "abc".replace("", "-"));
    assert_eq!(replace_str("abc", "", "-"), "-a-b-c-");
    assert_eq!(replace_str("", "", "x"), "x");
    assert_eq!(count_matches("abc", ""), "abc".matches("").count());
    assert_eq!(count_matches("", ""), 1);
    assert_eq!(count_matches("\u{e9}t\u{e9}", ""), 4);
}
