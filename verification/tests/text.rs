use sure_rm::text::{chars_of, decimal_string, parse_u64, white_space};

#[test]
fn white_space_matches_std() {
    for u in 0..=0x10FFFFu32 {
        if let Some(c) = char::from_u32(u) {
            assert_eq!(white_space(c), c.is_whitespace(), "U+{u:04X}");
        }
    }
}

#[test]
fn parse_u64_matches_std() {
    for s in [
        "", "+", "-", "0", "+0", "-0", "007", "18446744073709551615", "18446744073709551616",
        "1_0", " 1", "12a", "++1", "99999999999999999999",
    ] {
        let cs = chars_of(s);
        assert_eq!(parse_u64(&cs, 0, cs.len()), s.parse::<u64>().ok(), "{s:?}");
    }
}

#[test]
fn decimal_matches_std() {
    for n in [0u64, 7, 10, 1234567890, u64::MAX] {
        assert_eq!(decimal_string(n), n.to_string());
    }
}
