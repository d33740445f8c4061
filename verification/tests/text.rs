use line_counter::text::{char_is_letter, char_lowercase, to_lowercase};

#[test]
fn letters_are_the_ascii_letters() {
    for code in 0u32..0x300 {
        if let Some(c) = char::from_u32(code) {
            assert_eq!(char_is_letter(c), c.is_ascii_alphabetic());
        }
    }
    assert!(!char_is_letter('\u{e9}'));
    assert!(!char_is_letter('\u{ff21}'));
}

#[test]
fn folding_moves_only_upper_case_ascii_letters() {
    for code in 0u32..0x300 {
        if let Some(c) = char::from_u32(code) {
            assert_eq!(char_lowercase(c), c.to_ascii_lowercase());
        }
    }
    assert_eq!(char_lowercase('A'), 'a');
    assert_eq!(char_lowercase('Z'), 'z');
    assert_eq!(char_lowercase('@'), '@');
    assert_eq!(char_lowercase('['), '[');
    assert_eq!(char_lowercase('\u{c9}'), '\u{c9}');
}

#[test]
fn text_is_folded_character_by_character() {
    assert_eq!(to_lowercase(""), "");
    assert_eq!(to_lowercase("RS"), "rs");
    assert_eq!(to_lowercase("Tar.GZ"), "tar.gz");
    assert_eq!(to_lowercase("\u{c9}T\u{c9} 123"), "\u{c9}t\u{c9} 123");
}
