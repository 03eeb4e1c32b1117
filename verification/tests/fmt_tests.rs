use memscan::fmt::{format_value, extract_cstring, push_hex_u64, push_dec_i64, str_contains,
    str_starts_with, str_eq, str_contains_char};
use memscan::values::ValueType;

#[test]
fn test_format_value_integers() {
    assert_eq!(format_value(&100u32.to_le_bytes(), ValueType::Dword), "100");
    assert_eq!(format_value(&(-42i32).to_le_bytes(), ValueType::Dword), "-42");
    assert_eq!(format_value(&[0xFF], ValueType::Byte), "-1");
    assert_eq!(format_value(&i64::MAX.to_le_bytes(), ValueType::Qword), "9223372036854775807");
    assert_eq!(format_value(&[0x01, 0x02], ValueType::Dword), "N/A");
}

#[test]
fn test_format_value_pattern_bytes() {
    assert_eq!(format_value(&[0xDE, 0xAD], ValueType::Pattern), "DE AD");
    let long: Vec<u8> = (0u8..20).collect();
    let text = format_value(&long, ValueType::Pattern);
    assert!(text.ends_with("..."));
    assert!(text.starts_with("00 01 02"));
}

#[test]
fn test_number_text() {
    let mut s = String::new();
    push_hex_u64(&mut s, 0x1A2B);
    assert_eq!(s, "1A2B");
    let mut t = String::new();
    push_dec_i64(&mut t, -305);
    assert_eq!(t, "-305");
    let mut z = String::new();
    push_hex_u64(&mut z, 0);
    assert_eq!(z, "0");
}

#[test]
fn test_extract_cstring() {
    assert_eq!(extract_cstring(b"hello\0junk"), "hello");
    assert_eq!(extract_cstring(b"plain"), "plain");
    assert_eq!(extract_cstring(b"\0"), "");
}

#[test]
fn test_string_search_helpers() {
    assert!(str_contains("/data/app/x/libfoo.so", ".so"));
    assert!(!str_contains("/system/lib", ".so"));
    assert!(str_starts_with("[anon:scudo:primary]", "[anon:scudo:"));
    assert!(!str_starts_with("x[anon:", "[anon:"));
    assert!(str_eq("abc", "abc"));
    assert!(!str_eq("abc", "abd"));
    assert!(str_contains_char("r-xp", 'x'));
    assert!(!str_contains_char("rw-p", 'x'));
}
