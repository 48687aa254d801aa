use tts_bot::replies::{dict_add_reply, dict_remove_reply, voice_changed_message};
use tts_bot::text::IntErrorKind;
use tts_bot::voices::{all_voices, select_voice, voice_menu_options, VoiceCharacter, VoiceStyles};

fn style(name: &str, id: u32, kind: Option<&str>) -> VoiceStyles {
    VoiceStyles { name: name.to_string(), id, kind: kind.map(|k| k.to_string()) }
}

fn sample() -> Vec<VoiceCharacter> {
    vec![
        VoiceCharacter {
            name: "四国めたん".to_string(),
            styles: vec![style("ノーマル", 2, None), style("あまあま", 0, None)],
        },
        VoiceCharacter {
            name: "ずんだもん".to_string(),
            styles: vec![style("ノーマル", 3, None), style("ハミング", 3003, Some("frame_decode"))],
        },
    ]
}

#[test]
fn test() {
    let voice_character: Vec<(String, u32)> = all_voices(&sample());
    let _ = voice_character;
}

#[test]
fn all_voices_lists_talking_styles() {
    let v = all_voices(&sample());
    assert_eq!(
        v,
        vec![
            ("四国めたん-ノーマル".to_string(), 2),
            ("四国めたん-あまあま".to_string(), 0),
            ("ずんだもん-ノーマル".to_string(), 3),
        ]
    );
    assert!(all_voices(&vec![]).is_empty());
}

fn strings(v: &[&str]) -> Vec<String> {
    v.iter().map(|s| s.to_string()).collect()
}

#[test]
fn selecting_a_voice() {
    let voices = all_voices(&sample());
    assert_eq!(
        select_voice("voicevox_voice", &strings(&["3"]), &voices),
        Ok(Some((3, "ずんだもん-ノーマル".to_string())))
    );
    assert_eq!(
        select_voice("voicevox_voice_extra", &strings(&["0", "2"]), &voices),
        Ok(Some((0, "四国めたん-あまあま".to_string())))
    );
    assert_eq!(select_voice("other", &strings(&["3"]), &voices), Ok(None));
    assert_eq!(select_voice("voicevox", &strings(&["3"]), &voices), Ok(None));
    assert_eq!(select_voice("voicevox_voice", &vec![], &voices), Ok(None));
    assert_eq!(select_voice("voicevox_voice", &strings(&["77"]), &voices), Ok(None));
    assert_eq!(
        select_voice("voicevox_voice", &strings(&["abc"]), &voices),
        Err(IntErrorKind::InvalidDigit)
    );
    assert_eq!(select_voice("voicevox_voice", &strings(&[""]), &voices), Err(IntErrorKind::Empty));
    assert_eq!(
        select_voice("voicevox_voice", &strings(&["4294967296"]), &voices),
        Err(IntErrorKind::PosOverflow)
    );
}

#[test]
fn menu_options_are_capped() {
    let voices: Vec<(String, u32)> = (0..25u32).map(|i| (format!("v{}", i), i * 7)).collect();
    let opts = voice_menu_options(&voices);
    assert_eq!(opts.len(), 20);
    assert_eq!(opts[3], ("v3".to_string(), "21".to_string()));
    assert_eq!(voice_menu_options(&all_voices(&sample())).len(), 3);
}

#[test]
fn replies() {
    assert_eq!(dict_add_reply(true, "草", "くさ"), "`草`の読み方を`くさ`として辞書に登録しました。");
    assert_eq!(dict_add_reply(false, "草", "くさ"), "すでに`草`は辞書に登録されています。");
    assert_eq!(dict_remove_reply(true, "草"), "辞書から`草`を削除しました。");
    assert_eq!(dict_remove_reply(false, "草"), "`草`は辞書に登録されていません。");
    assert_eq!(
        voice_changed_message(1234567890123, "ずんだもん-ノーマル"),
        "<@1234567890123>さんの声を`ずんだもん-ノーマル`に変更しました。"
    );
}
