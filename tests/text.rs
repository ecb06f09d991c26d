use profiling_converter::palette::{category_from_name, category_text, palette_color, Category};
use profiling_converter::text::{decimal_string, padded_decimal_string, parse_unsigned, same_text};

#[test]
fn decimal_forms() {
    assert_eq!(decimal_string(0), "0");
    assert_eq!(decimal_string(1234567), "1234567");
    assert_eq!(decimal_string(u64::MAX), "18446744073709551615");
    assert_eq!(padded_decimal_string(7, 4), "0007");
    assert_eq!(padded_decimal_string(12345, 4), "12345");
}

#[test]
fn unsigned_numbers_read_as_std_does() {
    assert_eq!(parse_unsigned("42", 10, u64::MAX), Some(42));
    assert_eq!(parse_unsigned("+42", 10, u64::MAX), Some(42));
    assert_eq!(parse_unsigned("", 10, u64::MAX), None);
    assert_eq!(parse_unsigned("+", 10, u64::MAX), None);
    assert_eq!(parse_unsigned("4a", 10, u64::MAX), None);
    assert_eq!(parse_unsigned("fF", 16, u64::MAX), Some(255));
    assert_eq!(parse_unsigned("100000000", 16, u32::MAX as u64), None);
    assert_eq!(parse_unsigned("ffffffff", 16, u32::MAX as u64), Some(u32::MAX as u64));
    assert_eq!(parse_unsigned("18446744073709551616", 10, u64::MAX), None);
}

#[test]
fn categories_by_name() {
    assert_eq!(category_from_name("FirmwareUdma"), Some(Category::FirmwareUdma));
    assert_eq!(category_from_name("firmwareudma"), None);
    assert_eq!(category_text(Category::BufferLifetime), "BufferLifetime");
    assert!(same_text("abc", "abc"));
    assert!(!same_text("abc", "abd"));
}

#[test]
fn palette_entries() {
    assert_eq!(palette_color(0), "thread_state_uninterruptible");
    assert_eq!(palette_color(26), "cq_build_attempt_runnig");
    assert_eq!(palette_color(28), "cq_build_attempt_failed");
}
