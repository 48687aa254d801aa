use tts_bot::dictionary::GuildDictionary;
use tts_bot::text::{chars_of, decimal_chars, parse_unsigned, replace_chars, string_of, IntErrorKind};
use tts_bot::tts::prepare_tts_text;

fn cs(s: &str) -> Vec<char> {
    s.chars().collect()
}

#[test]
fn parse_like_str_parse() {
    for s in ["0", "42", "+42", "00", "18446744073709551615"] {
        assert_eq!(parse_unsigned(&cs(s), u64::MAX), Ok(s.parse::<u64>().unwrap()));
    }
    assert_eq!(parse_unsigned(&cs(""), u64::MAX), Err(IntErrorKind::Empty));
    assert_eq!(parse_unsigned(&cs("+"), u64::MAX), Err(IntErrorKind::InvalidDigit));
    assert_eq!(parse_unsigned(&cs("-"), u64::MAX), Err(IntErrorKind::InvalidDigit));
    assert_eq!(parse_unsigned(&cs("1a"), u64::MAX), Err(IntErrorKind::InvalidDigit));
    assert_eq!(parse_unsigned(&cs("１"), u64::MAX), Err(IntErrorKind::InvalidDigit));
    assert_eq!(parse_unsigned(&cs("256"), 255), Err(IntErrorKind::PosOverflow));
    assert_eq!(parse_unsigned(&cs("255"), 255), Ok(255));
    // Overflow is found before a later bad character, as str::parse does.
    assert_eq!(parse_unsigned(&cs("999x"), 255), Err(IntErrorKind::PosOverflow));
    assert!("999x".parse::<u8>().is_err());
}

#[test]
fn decimal_digits() {
    for n in [0u64, 7, 10, 99, 100, 1234567890, u64::MAX] {
        assert_eq!(string_of(&decimal_chars(n)), n.to_string());
        assert_eq!(parse_unsigned(&decimal_chars(n), u64::MAX), Ok(n));
    }
}

#[test]
fn replace_matches_str_replace() {
    let cases = [("aaa", "aa", "b"), ("abcabc", "bc", "X"), ("abc", "", "-"), ("", "", "-"), ("abc", "d", "e"), ("ab", "abc", "x")];
    for (s, from, to) in cases {
        assert_eq!(string_of(&replace_chars(&cs(s), &cs(from), &cs(to))), s.replace(from, to));
    }
    assert_eq!(chars_of("日本語"), vec!['日', '本', '語']);
}

#[test]
fn tts_text_is_cut_then_replaced() {
    let mut d = GuildDictionary::new();
    d.set(1, "w".to_string(), "わら".to_string());
    assert_eq!(prepare_tts_text("abcw", 3, &d, 1), "abc");
    assert_eq!(prepare_tts_text("abw", 3, &d, 1), "abわら");
    assert_eq!(prepare_tts_text("wwwww", 2, &d, 1), "わらわら");
    assert_eq!(prepare_tts_text("", 0, &d, 1), "");
    // Another guild's dictionary does not apply.
    assert_eq!(prepare_tts_text("abw", 3, &d, 2), "abw");
    assert_eq!(prepare_tts_text("日本語です", 3, &GuildDictionary::new(), 1), "日本語");
}

#[test]
fn int_error_texts_match_std() {
    assert_eq!(IntErrorKind::Empty.description(), "".parse::<u32>().unwrap_err().to_string());
    assert_eq!(IntErrorKind::InvalidDigit.description(), "x".parse::<u32>().unwrap_err().to_string());
    assert_eq!(IntErrorKind::PosOverflow.description(), "99999999999".parse::<u32>().unwrap_err().to_string());
}
