use tor_router::text::{
    cat, i64_to_string, parse_i64, parse_u16, parse_u64, str_eq, string_of, strip_trailing_chars,
    trim_str, u128_to_hex, u128_to_string,
};

#[test]
fn decimal_text_of_numbers() {
    assert_eq!(u128_to_string(0), "0");
    assert_eq!(u128_to_string(7), "7");
    assert_eq!(u128_to_string(1234567890), "1234567890");
    assert_eq!(u128_to_string(u128::MAX), u128::MAX.to_string());
    assert_eq!(i64_to_string(-42), "-42");
    assert_eq!(i64_to_string(i64::MIN), "-9223372036854775808");
    assert_eq!(i64_to_string(i64::MAX), "9223372036854775807");
}

#[test]
fn parse_u16_matches_std() {
    for s in ["0", "80", "+80", "65535", "65536", "", "+", "-1", "8a", " 80", "0080", "99999999999999999999999"] {
        assert_eq!(parse_u16(s), s.parse::<u16>().ok(), "input {:?}", s);
    }
}

#[test]
fn parse_u64_matches_std() {
    for s in ["0", "18446744073709551615", "18446744073709551616", "+1", "1.5", ""] {
        assert_eq!(parse_u64(s), s.parse::<u64>().ok(), "input {:?}", s);
    }
}

#[test]
fn parse_i64_matches_std() {
    for s in [
        "0", "-0", "+0", "-9223372036854775808", "-9223372036854775809", "9223372036854775807",
        "9223372036854775808", "-", "+", "--1", "+-1", "12x", "1700000000000",
    ] {
        assert_eq!(parse_i64(s), s.parse::<i64>().ok(), "input {:?}", s);
    }
}

#[test]
fn decimal_round_trip() {
    for n in [0u16, 1, 9, 10, 3000, 65535] {
        assert_eq!(parse_u16(&u128_to_string(n as u128)), Some(n));
    }
    for x in [i64::MIN, -1, 0, 1, i64::MAX] {
        assert_eq!(parse_i64(&i64_to_string(x)), Some(x));
    }
}

#[test]
fn trimming_follows_str_trim() {
    for s in ["  a b  ", "\t\n x \r", "\u{3000}y\u{2003}", "", "   ", "\u{85}z"] {
        let t: String = trim_str(s).into_iter().collect();
        assert_eq!(t, s.trim());
    }
}

#[test]
fn strip_trailing_slashes() {
    let v: Vec<char> = "/a//".chars().collect();
    let r: String = strip_trailing_chars(&v, '/').into_iter().collect();
    assert_eq!(r, "/a");
    let v: Vec<char> = "///".chars().collect();
    assert!(strip_trailing_chars(&v, '/').is_empty());
}

#[test]
fn text_helpers() {
    assert!(str_eq("abc", "abc"));
    assert!(!str_eq("abc", "abd"));
    assert_eq!(cat("ab", "cd"), "abcd");
    assert_eq!(string_of("xy"), "xy");
    assert_eq!(string_of("ÄB ü"), "ÄB ü");
}

#[test]
fn hex_text_of_numbers() {
    assert_eq!(u128_to_hex(0), "0");
    assert_eq!(u128_to_hex(10), "a");
    assert_eq!(u128_to_hex(255), "ff");
    assert_eq!(u128_to_hex(4096), "1000");
    assert_eq!(u128_to_hex(u128::MAX), format!("{:x}", u128::MAX));
}
