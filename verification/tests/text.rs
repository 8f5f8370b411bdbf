use atomic_kb::markdown::trim_str;
use atomic_kb::text::{byte_len_of, chars_of, has_pair_from, is_whitespace, push_str, string_from_chars};

#[test]
fn whitespace_agrees_with_std_on_all_chars() {
    for u in 0u32..=0x10FFFF {
        if let Some(c) = char::from_u32(u) {
            assert_eq!(is_whitespace(c), c.is_whitespace(), "char U+{:04X}", u);
        }
    }
}

#[test]
fn trim_agrees_with_std() {
    for t in ["", "  ", " a ", "\u{3000}x\u{2028}", "\ta b\n", "abc", "\u{A0}\u{85}"] {
        assert_eq!(trim_str(t), t.trim());
    }
}

#[test]
fn chars_and_strings_round_trip() {
    let s = "añ€😀";
    let cs = chars_of(s);
    assert_eq!(cs, vec!['a', 'ñ', '€', '😀']);
    assert_eq!(string_from_chars(&cs), s);
    assert_eq!(byte_len_of(&cs, 0, 4), s.len() as u128);
    assert_eq!(byte_len_of(&cs, 1, 3), 5);
    let mut out = String::from("x");
    push_str(&mut out, s);
    assert_eq!(out, "xañ€😀");
}

#[test]
fn pairs_are_found_from_an_offset() {
    let cs = chars_of("a.b. c");
    assert!(has_pair_from(&cs, 0, '.', ' '));
    assert!(has_pair_from(&cs, 3, '.', ' '));
    assert!(!has_pair_from(&cs, 4, '.', ' '));
    assert!(!has_pair_from(&cs, 6, '.', ' '));
}
