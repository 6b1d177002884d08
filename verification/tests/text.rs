use chronicle::text::{char_is_whitespace, str_eq};

#[test]
fn whitespace_agrees_with_std() {
    for u in 0u32..0x3100 {
        if let Some(c) = char::from_u32(u) {
            assert_eq!(char_is_whitespace(c), c.is_whitespace(), "U+{:04X}", u);
        }
    }
}

#[test]
fn string_equality_agrees_with_std() {
    for (a, b) in [("", ""), ("a", ""), ("漢字", "漢字"), ("漢字", "漢子"), ("ab", "abc")] {
        assert_eq!(str_eq(a, b), a == b);
    }
}
