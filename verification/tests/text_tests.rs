use podpingd::text::{i64_to_decimal, parse_u32, parse_u64, str_eq, trim_str, u64_to_decimal};

#[test]
fn decimal_rendering() {
    assert_eq!(u64_to_decimal(0), "0");
    assert_eq!(u64_to_decimal(7), "7");
    assert_eq!(u64_to_decimal(1234567890), "1234567890");
    assert_eq!(u64_to_decimal(u64::MAX), u64::MAX.to_string());
    assert_eq!(i64_to_decimal(-5), "-5");
    assert_eq!(i64_to_decimal(0), "0");
    assert_eq!(i64_to_decimal(i64::MIN), i64::MIN.to_string());
    assert_eq!(i64_to_decimal(2024), "2024");
}

#[test]
fn unsigned_parsing_matches_std() {
    for s in [
        "42", "+42", "", "+", "-1", "-0", "007", "4294967295", "4294967296", " 1", "1 ", "1a",
        "18446744073709551615", "18446744073709551616", "٣", "+-1",
    ] {
        assert_eq!(parse_u64(s), s.parse::<u64>().ok(), "u64 {:?}", s);
        assert_eq!(parse_u32(s), s.parse::<u32>().ok(), "u32 {:?}", s);
    }
}

#[test]
fn trimming_matches_std() {
    for s in ["  12 \n", "", "   ", "a b", "\u{3000}x\u{2028}", "\u{200B}y", "\t\r\n7\u{85}"] {
        assert_eq!(trim_str(s), s.trim(), "{:?}", s);
    }
}

#[test]
fn string_equality() {
    assert!(str_eq("custom_json_operation", "custom_json_operation"));
    assert!(!str_eq("custom_json_operation", "custom_json"));
    assert!(!str_eq("abc", "abd"));
    assert!(str_eq("", ""));
}
