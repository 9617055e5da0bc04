use gecko_profiles::text::{has_char, has_prefix, is_whitespace, trim_bounds};

fn chars(s: &str) -> Vec<char> {
    s.chars().collect()
}

#[test]
fn whitespace_matches_std() {
    for c in [' ', '\t', '\n', '\r', '\u{b}', '\u{c}', '\u{85}', '\u{a0}', '\u{2003}', '\u{3000}', 'a', '1', '[', '\u{200b}'] {
        assert_eq!(is_whitespace(c), c.is_whitespace(), "{:?}", c);
    }
}

#[test]
fn trim_bounds_match_std_trim() {
    for s in ["", "   ", " a b ", "\tName=x\r", "x", "\u{a0}y\u{3000}"] {
        let v = chars(s);
        let (lo, hi) = trim_bounds(&v);
        let got: String = v[lo..hi].iter().collect();
        assert_eq!(got, s.trim());
    }
}

#[test]
fn prefix_and_char_tests() {
    let v = chars("  [Profile3]  ");
    let (lo, hi) = trim_bounds(&v);
    assert!(has_prefix(&v, lo, hi, "[Profile"));
    assert!(!has_prefix(&v, lo, hi, "Name="));
    assert!(!has_prefix(&v, lo, lo + 3, "[Profile"));
    assert!(has_char(&v, lo, hi, '3'));
    assert!(!has_char(&v, lo, hi, '1'));
}
