use tts_bot::cache::TtsChannel;
use tts_bot::speaker::SpeakerDict;
use tts_bot::store::DataError;

#[test]
fn tts_channel_set_get_remove() {
    let mut t = TtsChannel::new();
    assert_eq!(t.get(1), None);
    assert!(!t.has_eq(1, 10));
    t.set(1, 10);
    assert_eq!(t.get(1), Some(10));
    assert!(t.has_eq(1, 10));
    assert!(!t.has_eq(1, 11));
    assert!(!t.has_eq(2, 10));
    t.set(1, 11);
    assert!(t.has_eq(1, 11));
    t.set(2, 20);
    t.remove(1);
    assert_eq!(t.get(1), None);
    assert_eq!(t.get(2), Some(20));
}

#[test]
fn speaker_set_get_remove() {
    let mut s = SpeakerDict::new();
    assert_eq!(s.get(1, 100), None);
    s.set(1, 100, 3);
    assert_eq!(s.get(1, 100), Some(3));
    assert_eq!(s.get(2, 100), None);
    s.set(1, 100, 8);
    s.set(1, 101, 4);
    assert_eq!(s.get(1, 100), Some(8));
    assert!(s.remove(1, &100));
    assert!(!s.remove(1, &100));
    assert!(!s.remove(5, &100));
    assert_eq!(s.get(1, 100), None);
    assert_eq!(s.get(1, 101), Some(4));
}

#[test]
fn speaker_id_falls_back_to_default() {
    let mut s = SpeakerDict::new();
    s.set(1, 100, 3);
    assert_eq!(s.speaker_id(1, 100, 2), 3);
    assert_eq!(s.speaker_id(1, 101, 2), 2);
    assert_eq!(s.speaker_id(9, 100, 2), 2);
}

#[test]
fn speaker_json() {
    let s = SpeakerDict::from_json("{\"1\":{\"100\":3,\"101\":4},\"2\":{}}").unwrap();
    assert_eq!(s.get(1, 100), Some(3));
    assert_eq!(s.get(1, 101), Some(4));
    assert_eq!(s.get(2, 100), None);
    let mut t = SpeakerDict::new();
    t.set(2, 7, 1);
    t.set(1, 5, 9);
    assert_eq!(t.to_json().unwrap(), "{\"1\":{\"5\":9},\"2\":{\"7\":1}}");
    // Removing a choice keeps an (empty) entry for the guild.
    t.remove(3, &1);
    assert_eq!(t.to_json().unwrap(), "{\"1\":{\"5\":9},\"2\":{\"7\":1},\"3\":{}}");
    assert_eq!(SpeakerDict::new().to_json().unwrap(), "{}");
    assert!(matches!(SpeakerDict::from_json("[]"), Err(DataError::Parse)));
    assert!(matches!(SpeakerDict::from_json("{\"x\":{}}"), Err(DataError::Parse)));
    // Discord ids are never 0.
    assert!(matches!(SpeakerDict::from_json("{\"0\":{}}"), Err(DataError::Parse)));
    assert!(matches!(SpeakerDict::from_json("{\"1\":{\"0\":2}}"), Err(DataError::Parse)));
    // Keys are read as serenity reads ids: with str::parse.
    let p = SpeakerDict::from_json("{\"+7\":{\"007\":2}}").unwrap();
    assert_eq!(p.get(7, 7), Some(2));
}

#[test]
fn speaker_json_round_trip() {
    let mut t = SpeakerDict::new();
    t.set(10, 20, 3);
    t.set(10, 21, 4);
    t.set(11, 20, 5);
    t.remove(12, &1);
    let back = SpeakerDict::from_json(&t.to_json().unwrap()).unwrap();
    assert_eq!(back.get(10, 20), Some(3));
    assert_eq!(back.get(10, 21), Some(4));
    assert_eq!(back.get(11, 20), Some(5));
    assert_eq!(back.get(12, 1), None);
    assert_eq!(back.to_json().unwrap(), t.to_json().unwrap());
}
