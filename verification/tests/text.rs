use cce_designer::text::{
    chars_of, lower_eq, str_eq, trim_bounds, trimmed_eq, trimmed_lower_eq, white_space,
};

#[test]
fn trimming_matches_str_trim() {
    for s in ["", "   ", " a ", "\u{2003}x y\u{2028}", "abc", "\t\n\r a\u{85}"] {
        let v = chars_of(s);
        let (i, j) = trim_bounds(&v);
        let got: String = v[i..j].iter().collect();
        assert_eq!(got, s.trim(), "{s:?}");
    }
}

#[test]
fn white_space_is_the_unicode_property() {
    for c in ['\u{0}', 'a', '\u{200b}', '\u{feff}', '\u{1f}', '_'] {
        assert_eq!(white_space(c), c.is_whitespace(), "{c:?}");
    }
    for u in 0u32..0x3100 {
        if let Some(c) = char::from_u32(u) {
            assert_eq!(white_space(c), c.is_whitespace(), "U+{u:04X}");
        }
    }
}

#[test]
fn lower_eq_folds_only_the_left_side() {
    assert!(lower_eq("NetWork", "network"));
    assert!(!lower_eq("network", "NETWORK"));
    assert!(trimmed_lower_eq("  Smooth ", "smooth"));
    assert!(str_eq("a\u{2014}b", "a\u{2014}b"));
    assert!(!str_eq("ab", "abc"));
}

#[test]
fn trimmed_equality_drops_only_the_ends() {
    assert!(trimmed_eq("  page1\t", "page1"));
    assert!(trimmed_eq("page1", "page1"));
    assert!(!trimmed_eq("page 1", "page1"));
    assert!(!trimmed_eq("Page1", "page1"));
    assert!(trimmed_eq("   ", ""));
    assert!(!trimmed_eq("page1x", "page1"));
}
