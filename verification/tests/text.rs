use zeroclaw_sticker::text::{decimal, hex_lower, is_blank, str_eq};

#[test]
fn decimal_matches_to_string() {
    for n in [0u64, 7, 10, 42, 200, 500, 999, 65535, u64::MAX] {
        assert_eq!(decimal(n), n.to_string());
    }
}

#[test]
fn hex_lower_writes_two_lowercase_digits_per_byte() {
    assert_eq!(hex_lower(&[]), "");
    assert_eq!(hex_lower(&[0x00, 0x0f, 0xbe, 0xef, 0xff]), "000fbeefff");
}

#[test]
fn blank_means_only_unicode_white_space() {
    assert!(is_blank(""));
    assert!(is_blank(" \t\n\r"));
    assert!(is_blank("\u{3000}\u{2009}\u{a0}"));
    assert!(!is_blank(" 🔥 "));
    assert!(!is_blank("x"));
    for s in ["", " ", "\u{85}", "a b", "\u{200b}"] {
        assert_eq!(is_blank(s), s.trim().is_empty());
    }
}

#[test]
fn str_eq_compares_characters() {
    assert!(str_eq("🔥", "🔥"));
    assert!(!str_eq("🔥", "🔥\u{fe0f}"));
}
