//! The text vocabulary on concrete strings.

use pai_harness::text::{decimal, signed_decimal, str_eq, text_less, trim};

#[test]
fn numbers_print_as_display_does() {
    assert_eq!(decimal(0), "0");
    assert_eq!(decimal(1234567890), "1234567890");
    assert_eq!(decimal(u64::MAX), u64::MAX.to_string());
    assert_eq!(signed_decimal(-42), "-42");
    assert_eq!(signed_decimal(i64::MIN), i64::MIN.to_string());
}

#[test]
fn trimming_and_ordering_follow_std() {
    assert_eq!(trim("\u{3000} chào \n"), "chào");
    assert_eq!(trim("   "), "");
    assert!(str_eq("ế", "ế"));
    assert!(text_less("a", "b"));
    assert!(text_less("ab", "abc"));
    assert!(!text_less("b", "a"));
    assert!(!text_less("a", "a"));
    assert_eq!(text_less("ế", "z"), "ế" < "z");
}
