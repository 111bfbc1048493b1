use resp_store::text::{
    eq_bytes, eq_ignore_case, parse_i32, parse_u64, push_decimal, push_signed_decimal,
};

#[test]
fn signed_numbers_are_read() {
    assert_eq!(parse_i32(b"0"), Some(0));
    assert_eq!(parse_i32(b"7"), Some(7));
    assert_eq!(parse_i32(b"+7"), Some(7));
    assert_eq!(parse_i32(b"-7"), Some(-7));
    assert_eq!(parse_i32(b"-0"), Some(0));
    assert_eq!(parse_i32(b"007"), Some(7));
    assert_eq!(parse_i32(b"2147483647"), Some(i32::MAX));
    assert_eq!(parse_i32(b"-2147483648"), Some(i32::MIN));
    assert_eq!(parse_i32(b"00000000000000000000000000000000000000012"), Some(12));
}

#[test]
fn what_is_no_signed_number_is_not_read() {
    assert_eq!(parse_i32(b""), None);
    assert_eq!(parse_i32(b"+"), None);
    assert_eq!(parse_i32(b"-"), None);
    assert_eq!(parse_i32(b"+-1"), None);
    assert_eq!(parse_i32(b"--1"), None);
    assert_eq!(parse_i32(b" 1"), None);
    assert_eq!(parse_i32(b"1 "), None);
    assert_eq!(parse_i32(b"1_000"), None);
    assert_eq!(parse_i32(b"12a"), None);
    assert_eq!(parse_i32(b"2147483648"), None);
    assert_eq!(parse_i32(b"-2147483649"), None);
    assert_eq!(parse_i32(b"99999999999999999999999999999999999999999"), None);
    assert_eq!(parse_i32(b"99999999999999999999x"), None);
}

#[test]
fn unsigned_numbers_are_read() {
    assert_eq!(parse_u64(b"0"), Some(0));
    assert_eq!(parse_u64(b"+15"), Some(15));
    assert_eq!(parse_u64(b"18446744073709551615"), Some(u64::MAX));
    assert_eq!(parse_u64(b"018446744073709551615"), Some(u64::MAX));
}

#[test]
fn what_is_no_unsigned_number_is_not_read() {
    assert_eq!(parse_u64(b""), None);
    assert_eq!(parse_u64(b"+"), None);
    assert_eq!(parse_u64(b"-0"), None);
    assert_eq!(parse_u64(b"-1"), None);
    assert_eq!(parse_u64(b"1.5"), None);
    assert_eq!(parse_u64(b"18446744073709551616"), None);
    assert_eq!(parse_u64(b"184467440737095516150"), None);
}

#[test]
fn numbers_are_parsed_as_std_parses_them() {
    let samples: [&str; 12] = [
        "", "+", "-", "0", "-0", "+0", "42", "-42", "2147483647", "2147483648", "-2147483648",
        "1e3",
    ];
    for sample in samples {
        assert_eq!(parse_i32(sample.as_bytes()), sample.parse::<i32>().ok());
        assert_eq!(parse_u64(sample.as_bytes()), sample.parse::<u64>().ok());
    }
}

#[test]
fn numbers_are_written_in_decimal() {
    let mut out = String::from("n=");
    push_decimal(&mut out, 0);
    assert_eq!(out, "n=0");
    push_decimal(&mut out, 9);
    push_decimal(&mut out, 10);
    push_decimal(&mut out, 12345);
    assert_eq!(out, "n=091012345");
    let mut big = String::new();
    push_decimal(&mut big, u128::MAX);
    assert_eq!(big, "340282366920938463463374607431768211455");
}

#[test]
fn negative_numbers_are_written_with_their_sign() {
    let mut out = String::new();
    push_signed_decimal(&mut out, -1);
    push_signed_decimal(&mut out, 0);
    push_signed_decimal(&mut out, 25);
    assert_eq!(out, "-1025");
    let mut low = String::new();
    push_signed_decimal(&mut low, i64::MIN);
    assert_eq!(low, "-9223372036854775808");
}

#[test]
fn what_is_written_is_read_back() {
    for n in [0u64, 1, 9, 10, 99, 100, 4096, u64::MAX] {
        let mut out = String::new();
        push_decimal(&mut out, n as u128);
        assert_eq!(parse_u64(out.as_bytes()), Some(n));
    }
    for n in [i32::MIN, -10, -1, 0, 1, 10, i32::MAX] {
        let mut out = String::new();
        push_signed_decimal(&mut out, n as i64);
        assert_eq!(parse_i32(out.as_bytes()), Some(n));
    }
}

#[test]
fn letters_compare_without_their_case() {
    assert!(eq_ignore_case(b"ping", b"PING"));
    assert!(eq_ignore_case(b"PiNg", b"pInG"));
    assert!(eq_ignore_case(b"", b""));
    assert!(eq_ignore_case(b"*1", b"*1"));
    assert!(!eq_ignore_case(b"ping", b"pong"));
    assert!(!eq_ignore_case(b"ping", b"pin"));
    assert!(!eq_ignore_case(b"@", b"`"));
    assert!(!eq_ignore_case(b"[", b"{"));
    assert!(!eq_ignore_case("\u{e9}".as_bytes(), "\u{c9}".as_bytes()));
}

#[test]
fn bytes_compare_one_by_one() {
    assert!(eq_bytes(b"*1", b"*1"));
    assert!(eq_bytes(b"", b""));
    assert!(!eq_bytes(b"*1", b"*2"));
    assert!(!eq_bytes(b"*1", b"*10"));
    assert!(!eq_bytes(b"a", b"A"));
}
