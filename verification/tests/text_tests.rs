use supertonic_reader::text::{char_is_whitespace, char_width, chars_of, split_on_char, split_whitespace_chars, string_of, trim_chars, utf8_len_of};

#[test]
fn white_space_class_matches_every_character() {
    for u in 0u32..=0x10FFFF {
        if let Some(c) = char::from_u32(u) {
            assert_eq!(char_is_whitespace(c), c.is_whitespace(), "U+{:04X}", u);
        }
    }
}

#[test]
fn widths_match_utf8_encoding() {
    for c in ['a', '\u{7F}', '\u{80}', '\u{7FF}', '\u{800}', '\u{FFFF}', '\u{10000}', '\u{10FFFF}'] {
        assert_eq!(char_width(c), c.len_utf8() as u128);
    }
    let s = "h\u{e9}llo \u{65E5}\u{1F600}";
    assert_eq!(utf8_len_of(&chars_of(s)), s.len() as u128);
}

#[test]
fn trimming_and_splitting_match_str() {
    for s in ["  a b  ", "\u{3000}x\u{2028}", "", "   ", "a,,b,", ",a"] {
        assert_eq!(string_of(&trim_chars(&chars_of(s))), s.trim());
        let parts: Vec<String> = split_on_char(&chars_of(s), ',').iter().map(|p| string_of(p)).collect();
        let expected: Vec<String> = s.split(',').map(|p| p.to_string()).collect();
        assert_eq!(parts, expected);
        let words: Vec<String> = split_whitespace_chars(&chars_of(s)).iter().map(|p| string_of(p)).collect();
        let expected_words: Vec<String> = s.split_whitespace().map(|p| p.to_string()).collect();
        assert_eq!(words, expected_words);
    }
}
