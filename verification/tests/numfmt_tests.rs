use lush::numfmt::{decimal_string, to_binary, to_hex, to_octal};

#[test]
fn hex_binary_octal_examples() {
    assert_eq!(to_hex(255), "0xFF");
    assert_eq!(to_binary(10), "0b1010");
    assert_eq!(to_octal(8), "0o10");
}

#[test]
fn radix_of_zero() {
    assert_eq!(to_hex(0), "0x0");
    assert_eq!(to_binary(0), "0b0");
    assert_eq!(to_octal(0), "0o0");
}

#[test]
fn radix_of_negative_is_twos_complement() {
    assert_eq!(to_hex(-1), "0xFFFFFFFFFFFFFFFF");
    assert_eq!(to_binary(-1), format!("0b{}", "1".repeat(64)));
    assert_eq!(to_octal(-8), format!("0o{:o}", -8i64));
    assert_eq!(to_hex(i64::MIN), "0x8000000000000000");
}

#[test]
fn radix_matches_std_formatting() {
    for v in [1i64, 7, 16, 4095, 123456789, i64::MAX, -300] {
        assert_eq!(to_hex(v), format!("0x{:X}", v));
        assert_eq!(to_binary(v), format!("0b{:b}", v));
        assert_eq!(to_octal(v), format!("0o{:o}", v));
    }
}

#[test]
fn decimal_text_of_integers() {
    assert_eq!(decimal_string(0), "0");
    assert_eq!(decimal_string(42), "42");
    assert_eq!(decimal_string(-7), "-7");
    assert_eq!(decimal_string(i64::MIN), "-9223372036854775808");
    assert_eq!(decimal_string(i64::MAX), "9223372036854775807");
}
