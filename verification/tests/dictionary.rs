use tts_bot::dictionary::{Dictionary, GuildDictionary};
use tts_bot::store::DataError;

#[test]
fn set_get_remove() {
    let mut d = Dictionary::new();
    assert!(d.set("草".to_string(), "くさ".to_string()));
    assert!(!d.set("草".to_string(), "わら".to_string()));
    assert_eq!(d.get("草"), Some("わら".to_string()));
    assert_eq!(d.get("木"), None);
    assert!(d.set("木".to_string(), "き".to_string()));
    assert_eq!(d.entries().len(), 2);
    assert!(d.remove("草"));
    assert!(!d.remove("草"));
    assert_eq!(d.get("草"), None);
    assert_eq!(d.get("木"), Some("き".to_string()));
}

#[test]
fn replace_in_entry_order() {
    let mut d = Dictionary::new();
    assert_eq!(d.replace("abc"), "abc");
    d.set("a".to_string(), "b".to_string());
    d.set("b".to_string(), "c".to_string());
    // "a" becomes "b" first, then every "b" becomes "c".
    assert_eq!(d.replace("ab"), "cc");
    let mut e = Dictionary::new();
    e.set("aa".to_string(), "x".to_string());
    assert_eq!(e.replace("aaa"), "xa");
    assert_eq!(e.replace("baab"), "bxb");
}

#[test]
fn replace_by_itself_changes_nothing() {
    let mut d = Dictionary::new();
    d.set("ab".to_string(), "ab".to_string());
    assert_eq!(d.replace("abcab"), "abcab");
}

#[test]
fn replace_empty_word_like_str_replace() {
    let mut d = Dictionary::new();
    d.set("".to_string(), "-".to_string());
    assert_eq!(d.replace("ab"), "ab".replace("", "-"));
    assert_eq!(d.replace(""), "-");
}

#[test]
fn toml_read_and_write() {
    let d = Dictionary::from_toml("\"草\" = \"くさ\"\nw = \"わら\"\n").unwrap();
    assert_eq!(d.get("草"), Some("くさ".to_string()));
    assert_eq!(d.get("w"), Some("わら".to_string()));
    assert_eq!(d.entries().len(), 2);
    let mut e = Dictionary::new();
    e.set("b".to_string(), "2".to_string());
    e.set("a".to_string(), "1".to_string());
    assert_eq!(e.to_toml().unwrap(), "a = \"1\"\nb = \"2\"\n");
    let back = Dictionary::from_toml(&e.to_toml().unwrap()).unwrap();
    assert_eq!(back.get("a"), Some("1".to_string()));
    assert_eq!(back.get("b"), Some("2".to_string()));
    assert_eq!(Dictionary::new().to_toml().unwrap(), "");
    assert!(Dictionary::from_toml("").unwrap().entries().is_empty());
}

#[test]
fn toml_errors() {
    assert!(matches!(Dictionary::from_toml("a = "), Err(DataError::Parse)));
    assert!(matches!(Dictionary::from_toml("a = 1"), Err(DataError::Parse)));
}

#[test]
fn absent_word_leaves_text_unchanged() {
    let mut d = Dictionary::new();
    d.set("xyz".to_string(), "何か".to_string());
    assert_eq!(d.replace("abcxy z"), "abcxy z");
}

#[test]
fn set_then_get_keeps_other_words() {
    let mut d = Dictionary::new();
    d.set("a".to_string(), "1".to_string());
    d.set("b".to_string(), "2".to_string());
    d.set("a".to_string(), "3".to_string());
    assert_eq!(d.get("a"), Some("3".to_string()));
    assert_eq!(d.get("b"), Some("2".to_string()));
    d.remove("a");
    assert_eq!(d.get("b"), Some("2".to_string()));
}

#[test]
fn toml_round_trip() {
    let mut d = Dictionary::new();
    d.set("a b".to_string(), "\"q\"\n".to_string());
    d.set("草".to_string(), "くさ".to_string());
    let back = Dictionary::from_toml(&d.to_toml().unwrap()).unwrap();
    assert_eq!(back.get("a b"), Some("\"q\"\n".to_string()));
    assert_eq!(back.get("草"), Some("くさ".to_string()));
    assert_eq!(back.entries().len(), 2);
}

#[test]
fn guild_dictionaries_are_separate() {
    let mut g = GuildDictionary::new();
    assert!(g.set(1, "w".to_string(), "ダブリュー".to_string()));
    // A word already there keeps its reading.
    assert!(!g.set(1, "w".to_string(), "わら".to_string()));
    assert!(g.set(2, "w".to_string(), "わら".to_string()));
    assert_eq!(g.replace(1, "www"), "ダブリューダブリューダブリュー");
    assert_eq!(g.replace(2, "w"), "わら");
    assert_eq!(g.replace(3, "w"), "w");
    assert_eq!(g.get(1, "w"), Some("ダブリュー".to_string()));
    assert_eq!(g.get(3, "w"), None);
    assert!(g.remove(2, "w"));
    assert!(!g.remove(2, "w"));
    assert!(!g.remove(3, "w"));
    assert!(g.guild(3).is_none());
    assert_eq!(g.guild(2).unwrap().entries().len(), 0);
    assert_eq!(g.guild(1).unwrap().entries().len(), 1);
}

#[test]
fn guild_dictionary_toml() {
    let mut g = GuildDictionary::new();
    g.set(20, "b".to_string(), "2".to_string());
    g.set(3, "a".to_string(), "1".to_string());
    let text = g.to_toml().unwrap();
    assert_eq!(text, "[3]\na = \"1\"\n\n[20]\nb = \"2\"\n");
    let back = GuildDictionary::from_toml(&text).unwrap();
    assert_eq!(back.get(3, "a"), Some("1".to_string()));
    assert_eq!(back.get(20, "b"), Some("2".to_string()));
    assert_eq!(back.get(3, "b"), None);
    assert!(matches!(GuildDictionary::from_toml("[0]\na = \"1\"\n"), Err(DataError::Parse)));
    assert!(matches!(GuildDictionary::from_toml("[x]\na = \"1\"\n"), Err(DataError::Parse)));
    assert!(GuildDictionary::from_toml("").unwrap().guild(1).is_none());
}
