use table_rs::text::contains_ci_exec;
use table_rs::text::contains_exec;
use table_rs::text::lex_lt_exec;
use table_rs::text::lowercase;

#[test]
fn lexicographic_order_on_strings() {
    assert!(lex_lt_exec("abc", "abd"));
    assert!(!lex_lt_exec("abd", "abc"));
    assert!(lex_lt_exec("ab", "abc"));
    assert!(lex_lt_exec("", "a"));
    assert!(!lex_lt_exec("same", "same"));
    // The empty string sorts before everything else.
    assert!(!lex_lt_exec("a", ""));
}

#[test]
fn substring_containment() {
    assert!(contains_exec("hello world", "lo wo"));
    assert!(contains_exec("hello", "hello"));
    assert!(contains_exec("hello", ""));
    assert!(!contains_exec("hello", "hello!"));
    assert!(!contains_exec("hello", "worl"));
}

#[test]
fn case_insensitive_containment_folds_both_sides() {
    assert!(contains_ci_exec("FERRIS", "ferris"));
    assert!(contains_ci_exec("ferris", "ERR"));
    assert!(!contains_ci_exec("ferros", "ferris"));
}

#[test]
fn lowercase_folds_mixed_case() {
    assert_eq!(lowercase("FeRrIs"), "ferris".to_string());
    assert_eq!(lowercase(""), "".to_string());
}
