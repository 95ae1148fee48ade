use orbit::decimal::{digit_char, push_decimal, push_signed_decimal};

fn unsigned(n: u64) -> String {
    let mut out = Vec::new();
    push_decimal(&mut out, n);
    out.iter().collect()
}

fn signed(i: i64) -> String {
    let mut out = Vec::new();
    push_signed_decimal(&mut out, i);
    out.iter().collect()
}

#[test]
fn digits_have_their_characters() {
    let all: String = (0u8..10).map(digit_char).collect();
    assert_eq!(all, "0123456789");
}

#[test]
fn naturals_in_decimal() {
    assert_eq!(unsigned(0), "0");
    assert_eq!(unsigned(7), "7");
    assert_eq!(unsigned(10), "10");
    assert_eq!(unsigned(101), "101");
    assert_eq!(unsigned(65535), "65535");
    assert_eq!(unsigned(4294967295), "4294967295");
    assert_eq!(unsigned(u64::MAX), "18446744073709551615");
}

#[test]
fn integers_in_decimal() {
    assert_eq!(signed(0), "0");
    assert_eq!(signed(42), "42");
    assert_eq!(signed(-1), "-1");
    assert_eq!(signed(-120), "-120");
    assert_eq!(signed(i64::MAX), "9223372036854775807");
    assert_eq!(signed(i64::MIN), "-9223372036854775808");
}

#[test]
fn decimal_appends_to_what_is_there() {
    let mut out = vec!['M'];
    push_signed_decimal(&mut out, 12);
    out.push(',');
    push_decimal(&mut out, 3);
    assert_eq!(out.iter().collect::<String>(), "M12,3");
}

#[test]
fn decimal_agrees_with_std() {
    for n in [0u64, 1, 9, 10, 11, 99, 100, 999, 1000, 12345, 1 << 32, u64::MAX - 1] {
        assert_eq!(unsigned(n), n.to_string());
    }
    for i in [0i64, -1, 1, -9, -10, 10, -2147483648, 2147483647, i64::MIN + 1] {
        assert_eq!(signed(i), i.to_string());
    }
}
