use tts_bot::messages::{BotConfig, ConstMessage, MessageError, MessageFormat, VoiceConfig};
use tts_bot::text::IntErrorKind;

fn strings(v: &[&str]) -> Vec<String> {
    v.iter().map(|s| s.to_string()).collect()
}

#[test]
fn test_default_config() {
    BotConfig::gen_default_config();
}

#[test]
fn default_config_values() {
    let c = BotConfig::gen_default_config();
    assert_eq!(c.max_voice_cache, 20);
    assert_eq!(c.voice.default_speaker_id, 2);
    assert_eq!(c.voice.max_message_length, 60);
    assert_eq!(c.voice.overed_message, "以下略");
    assert_eq!(c.voice.join.format(&["太郎"]), "太郎さんが参加しました");
    assert_eq!(c.voice.leave.format(&["花子"]), "花子さんが退出しました");
    let v = VoiceConfig::gen_default_config();
    assert_eq!(v.join.to_config_strings(), strings(&["{0}", "さんが参加しました"]));
}

#[test]
fn parse_argument_piece() {
    assert!(matches!(MessageFormat::parse("{0}"), Ok(MessageFormat::Arg(0))));
    assert!(matches!(MessageFormat::parse("{+3}"), Ok(MessageFormat::Arg(3))));
    assert!(matches!(MessageFormat::parse("{007}"), Ok(MessageFormat::Arg(7))));
}

#[test]
fn parse_text_piece() {
    match MessageFormat::parse("さんが参加しました") {
        Ok(MessageFormat::Text(t)) => assert_eq!(t, "さんが参加しました"),
        other => panic!("unexpected {:?}", other),
    }
    match MessageFormat::parse("{") {
        Ok(MessageFormat::Text(t)) => assert_eq!(t, "{"),
        other => panic!("unexpected {:?}", other),
    }
    match MessageFormat::parse("a{0}") {
        Ok(MessageFormat::Text(t)) => assert_eq!(t, "a{0}"),
        other => panic!("unexpected {:?}", other),
    }
    match MessageFormat::parse("") {
        Ok(MessageFormat::Text(t)) => assert_eq!(t, ""),
        other => panic!("unexpected {:?}", other),
    }
}

#[test]
fn parse_bad_numbers() {
    assert!(matches!(
        MessageFormat::parse("{}"),
        Err(MessageError::InvalidNumber(IntErrorKind::Empty))
    ));
    assert!(matches!(
        MessageFormat::parse("{x}"),
        Err(MessageError::InvalidNumber(IntErrorKind::InvalidDigit))
    ));
    assert!(matches!(
        MessageFormat::parse("{+}"),
        Err(MessageError::InvalidNumber(IntErrorKind::InvalidDigit))
    ));
    assert!(matches!(
        MessageFormat::parse("{-1}"),
        Err(MessageError::InvalidNumber(IntErrorKind::InvalidDigit))
    ));
    assert!(matches!(
        MessageFormat::parse("{99999999999999999999999}"),
        Err(MessageError::InvalidNumber(IntErrorKind::PosOverflow))
    ));
}

#[test]
fn piece_config_strings() {
    assert_eq!(MessageFormat::Arg(12).to_config_string(), "{12}");
    assert_eq!(MessageFormat::Arg(0).to_config_string(), "{0}");
    assert_eq!(MessageFormat::Text("abc".to_string()).to_config_string(), "abc");
}

#[test]
fn piece_round_trip() {
    for n in [0usize, 1, 9, 10, 12345, usize::MAX] {
        let s = MessageFormat::Arg(n).to_config_string();
        assert!(matches!(MessageFormat::parse(&s), Ok(MessageFormat::Arg(m)) if m == n));
    }
}

#[test]
fn new_checks_argument_range() {
    let ok = ConstMessage::<2>::new(vec![
        MessageFormat::Arg(1),
        MessageFormat::Text("と".to_string()),
        MessageFormat::Arg(0),
    ]);
    let ok = ok.unwrap();
    assert_eq!(ok.format(&["A", "B"]), "BとA");
    let bad = ConstMessage::<1>::new(vec![MessageFormat::Arg(1)]);
    assert!(matches!(bad, Err(MessageError::ArgOutOfRange(1))));
}

#[test]
fn from_config_strings_reads_in_order() {
    let m = ConstMessage::<1>::from_config_strings(&strings(&["{0}", "さんが参加しました"])).unwrap();
    assert_eq!(m.format(&["太郎"]), "太郎さんが参加しました");
    assert_eq!(m.segments(&["太郎"]), strings(&["太郎", "さんが参加しました"]));
    assert_eq!(m.to_config_strings(), strings(&["{0}", "さんが参加しました"]));
    // The first bad piece decides the error, before the range check.
    let e = ConstMessage::<1>::from_config_strings(&strings(&["{5}", "{x}"]));
    assert!(matches!(e, Err(MessageError::InvalidNumber(IntErrorKind::InvalidDigit))));
    let e = ConstMessage::<1>::from_config_strings(&strings(&["{0}", "{5}"]));
    assert!(matches!(e, Err(MessageError::ArgOutOfRange(1))));
    let empty = ConstMessage::<1>::from_config_strings(&Vec::new()).unwrap();
    assert_eq!(empty.format(&["x"]), "");
}

#[test]
fn message_round_trip() {
    let m = ConstMessage::<3>::from_config_strings(&strings(&["{2}", "-", "{0}", "{1}"])).unwrap();
    let again = ConstMessage::<3>::from_config_strings(&m.to_config_strings()).unwrap();
    assert_eq!(again.format(&["a", "b", "c"]), m.format(&["a", "b", "c"]));
    assert_eq!(m.format(&["a", "b", "c"]), "c-ab");
}

#[test]
fn format_is_joined_segments() {
    let m = ConstMessage::<2>::from_config_strings(&strings(&["<", "{0}", "|", "{1}", ">"])).unwrap();
    assert_eq!(m.segments(&["x", "y"]).concat(), m.format(&["x", "y"]));
}

#[test]
fn error_texts() {
    assert_eq!(
        MessageError::InvalidNumber(IntErrorKind::InvalidDigit).text(),
        "please set number: invalid digit found in string"
    );
    assert_eq!(MessageError::ArgOutOfRange(1).text(), "please set number between 0 and 1 exclusive");
    assert_eq!(MessageError::ArgOutOfRange(12).text(), "please set number between 0 and 12 exclusive");
}
