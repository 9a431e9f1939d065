use cw::utils::{capitalize_first_letter, is_blank, strings};

#[test]
fn test_capitalize_first_letter_normal() {
    assert_eq!(capitalize_first_letter("hello"), "Hello");
}

#[test]
fn test_capitalize_first_letter_uppercase_input() {
    assert_eq!(capitalize_first_letter("Hello"), "Hello");
}

#[test]
fn test_capitalize_first_letter_empty_string() {
    assert_eq!(capitalize_first_letter(""), "");
}

#[test]
fn test_capitalize_first_letter_single_char() {
    assert_eq!(capitalize_first_letter("a"), "A");
}

#[test]
fn test_capitalize_first_letter_non_ascii() {
    assert_eq!(capitalize_first_letter("ßeta"), "SSeta"); // ß uppercases to SS
}

#[test]
fn test_is_blank_true() {
    assert!(is_blank(""));
    assert!(is_blank(" "));
    assert!(is_blank("\t\n"));
}

#[test]
fn test_is_blank_false() {
    assert!(!is_blank("a"));
    assert!(!is_blank("  b  "));
}

#[test]
fn strings_macro_works_as_expected() {
    let result = strings(&["hello", "world", "123"]);
    let expected = vec!["hello".to_string(), "world".to_string(), "123".to_string()];
    assert_eq!(result, expected);
}

#[test]
fn capitalize_keeps_the_rest_of_the_text() {
    assert_eq!(capitalize_first_letter("éclair au café"), "Éclair au café");
    assert_eq!(capitalize_first_letter("1abc"), "1abc");
}

#[test]
fn is_blank_on_unicode_white_space() {
    assert!(is_blank("\u{2003}\u{3000}\u{85}"));
    assert!(!is_blank("\u{200b}"));
}

#[test]
fn strings_of_nothing_is_empty() {
    let result = strings(&[]);
    assert!(result.is_empty());
}
