use polyester_examples::text::{
    chars_of, contains_exec, lower_chars, parse_u128_chars, trimmed_chars, u128_digits,
};

fn s(v: Vec<char>) -> String {
    v.into_iter().collect()
}

#[test]
fn trimming_uses_unicode_white_space() {
    assert_eq!(s(trimmed_chars("  a b \t\r\n")), "a b");
    assert_eq!(s(trimmed_chars("\u{a0}x\u{2003}")), "x");
    assert_eq!(s(trimmed_chars("   ")), "");
}

#[test]
fn lower_case_is_ascii_only() {
    assert_eq!(s(lower_chars(&chars_of("AbC-Ä"))), "abc-Ä");
}

#[test]
fn searching_and_digits() {
    assert!(contains_exec(&chars_of("replace_me_now"), &chars_of("_me")));
    assert!(!contains_exec(&chars_of("abc"), &chars_of("abcd")));
    assert_eq!(s(u128_digits(0)), "0");
    assert_eq!(s(u128_digits(1_000_042)), "1000042");
    assert_eq!(s(u128_digits(u128::MAX)), u128::MAX.to_string());
}

#[test]
fn unsigned_parsing_matches_std() {
    for t in ["0", "+7", "0042", "340282366920938463463374607431768211455"] {
        assert_eq!(parse_u128_chars(&chars_of(t)), t.parse::<u128>().ok());
    }
    for t in ["", "+", "-1", " 1", "1a", "340282366920938463463374607431768211456"] {
        assert_eq!(parse_u128_chars(&chars_of(t)), None);
    }
}
