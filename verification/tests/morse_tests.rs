use secret_message::morse::from_morse_array_to_char;
use secret_message::morse::from_morse_str_to_morse_array;
use secret_message::morse::lookup_by_char;
use secret_message::morse::morse_char_to_str;
use secret_message::morse::morseword_to_alphabet;
use secret_message::morse::translate_from_morse;
use secret_message::morse::translate_to_morse;
use secret_message::morse::word_to_morse;
use secret_message::morse::Morse;
use secret_message::morse::MorseError;

const SUPPORTED: &str = " abcdefghijklmnopqrstuvwxyz1234567890";

#[test]
fn test_encode_eq_decode() {
    let msg_str = "hello there friend";
    let msg_morse = translate_to_morse(msg_str).unwrap();
    let msg_back_to_str = translate_from_morse(&msg_morse).unwrap();
    assert_eq!(msg_str.trim(), msg_back_to_str.trim())
}

#[test]
fn encode_sos_exact() {
    let expected = "\u{b7} \u{b7} \u{b7}   \u{2015} \u{2015} \u{2015}   \u{b7} \u{b7} \u{b7}";
    assert_eq!(translate_to_morse("sos").unwrap(), expected);
}

#[test]
fn encode_two_words_exact_and_back() {
    let expected = "\u{b7} \u{2015}       \u{2015} \u{b7} \u{b7} \u{b7}";
    let morse = translate_to_morse("a b").unwrap();
    assert_eq!(morse, expected);
    assert_eq!(translate_from_morse(&morse).unwrap(), "a b");
}

#[test]
fn decode_empty_is_empty() {
    assert_eq!(translate_from_morse("").unwrap(), "");
}

#[test]
fn encode_empty_is_empty() {
    assert_eq!(translate_to_morse("").unwrap(), "");
}

#[test]
fn encode_unsupported_character_fails() {
    assert_eq!(translate_to_morse("!"), Err(MorseError::UnknownCharacter));
    assert_eq!(
        translate_to_morse("sos!"),
        Err(MorseError::UnknownCharacter)
    );
}

#[test]
fn decode_unknown_sequence_fails() {
    // four long marks form no table entry
    let four_dahs = "\u{2015} \u{2015} \u{2015} \u{2015}";
    assert_eq!(
        translate_from_morse(four_dahs),
        Err(MorseError::UnknownSequence)
    );
}

#[test]
fn decode_invalid_symbol_fails() {
    assert_eq!(translate_from_morse("x"), Err(MorseError::InvalidSymbol));
}

#[test]
fn table_complete_for_all_37_characters() {
    assert_eq!(SUPPORTED.chars().count(), 37);
    for c in SUPPORTED.chars() {
        let seq = lookup_by_char(c).unwrap();
        assert_eq!(from_morse_array_to_char(&seq).unwrap(), c);
    }
}

#[test]
fn table_injective() {
    for c1 in SUPPORTED.chars() {
        for c2 in SUPPORTED.chars() {
            if c1 != c2 {
                assert_ne!(lookup_by_char(c1).unwrap(), lookup_by_char(c2).unwrap());
            }
        }
    }
}

#[test]
fn lookup_unsupported_character_fails() {
    assert_eq!(lookup_by_char('!'), Err(MorseError::UnknownCharacter));
    assert_eq!(lookup_by_char('A'), Err(MorseError::UnknownCharacter));
}

#[test]
fn symbol_rendering_bijective() {
    let all = [
        Morse::Dit,
        Morse::Dah,
        Morse::BaseSpace,
        Morse::LetterSpace,
        Morse::WordSpace,
    ];
    for m in all {
        assert_eq!(Morse::from_str(m.to_str()).unwrap(), m);
    }
}

#[test]
fn symbol_parse_rejects_foreign_token() {
    assert_eq!(Morse::from_str("x"), Err(MorseError::InvalidSymbol));
    assert_eq!(Morse::from_str(""), Err(MorseError::InvalidSymbol));
    assert_eq!(Morse::from_str("  "), Err(MorseError::InvalidSymbol));
}

#[test]
fn symbol_weights() {
    assert_eq!(Morse::Dit.len(), 1);
    assert_eq!(Morse::BaseSpace.len(), 1);
    assert_eq!(Morse::Dah.len(), 3);
    assert_eq!(Morse::LetterSpace.len(), 3);
    assert_eq!(Morse::WordSpace.len(), 7);
}

#[test]
fn render_one_letter() {
    let a = lookup_by_char('a').unwrap();
    assert_eq!(morse_char_to_str(&a), "\u{b7} \u{2015}");
}

#[test]
fn parse_one_letter() {
    let marks = from_morse_str_to_morse_array("\u{b7} \u{2015}").unwrap();
    assert_eq!(marks, vec![Morse::Dit, Morse::Dah]);
}

#[test]
fn word_to_morse_exact() {
    let expected = "\u{b7} \u{b7}   \u{2015} \u{b7}";
    assert_eq!(word_to_morse("in").unwrap(), expected);
    assert_eq!(word_to_morse("!"), Err(MorseError::UnknownCharacter));
}

#[test]
fn morseword_empty_is_empty_word() {
    assert_eq!(morseword_to_alphabet("").unwrap(), "");
}

#[test]
fn round_trip_digits_and_words() {
    let cases = ["e", "0", "morse code 123", "a b c", "the quick brown fox"];
    for msg in cases {
        let morse = translate_to_morse(msg).unwrap();
        assert_eq!(translate_from_morse(&morse).unwrap(), msg);
    }
}
