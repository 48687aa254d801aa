use tts_bot::cache::TtsChannel;
use tts_bot::discord::{get_user_read_name, is_human, Member, User};
use tts_bot::events::{event_speech, message_is_read, should_leave, voice_state_event, Event, VoiceState};
use tts_bot::messages::VoiceConfig;

fn user(id: u64, bot: bool, system: bool) -> User {
    User { id, name: format!("user{}", id), global_name: None, bot, system }
}

fn member(id: u64) -> Member {
    Member { nick: None, user: user(id, false, false) }
}

fn state(channel: Option<u64>, with_member: bool) -> VoiceState {
    VoiceState { channel_id: channel, member: if with_member { Some(member(1)) } else { None } }
}

#[test]
fn read_name_precedence() {
    let mut m = member(1);
    assert_eq!(get_user_read_name(&m), "user1");
    m.user.global_name = Some("Global".to_string());
    assert_eq!(get_user_read_name(&m), "Global");
    m.nick = Some("ニック".to_string());
    assert_eq!(get_user_read_name(&m), "ニック");
}

#[test]
fn humans() {
    assert!(is_human(&user(1, false, false)));
    assert!(!is_human(&user(1, true, false)));
    assert!(!is_human(&user(1, false, true)));
}

#[test]
fn voice_state_events() {
    let bot = 50;
    // Joining the bot's channel from nowhere or from elsewhere.
    assert_eq!(voice_state_event(bot, &None, &state(Some(bot), true)), Some(Event::Join));
    assert_eq!(voice_state_event(bot, &Some(state(None, true)), &state(Some(bot), true)), Some(Event::Join));
    assert_eq!(voice_state_event(bot, &Some(state(Some(7), true)), &state(Some(bot), true)), Some(Event::Join));
    // Leaving the bot's channel for no channel.
    assert_eq!(voice_state_event(bot, &Some(state(Some(bot), true)), &state(None, true)), Some(Event::Leave));
    // Staying, moving elsewhere, or no member: nothing.
    assert_eq!(voice_state_event(bot, &Some(state(Some(bot), true)), &state(Some(bot), true)), None);
    assert_eq!(voice_state_event(bot, &Some(state(Some(bot), true)), &state(Some(7), true)), None);
    assert_eq!(voice_state_event(bot, &Some(state(Some(7), true)), &state(None, true)), None);
    assert_eq!(voice_state_event(bot, &None, &state(Some(bot), false)), None);
    assert_eq!(voice_state_event(bot, &Some(state(Some(bot), true)), &state(None, false)), None);
}

#[test]
fn event_speech_for_people_only() {
    let v = VoiceConfig::gen_default_config();
    let mut m = member(3);
    m.nick = Some("太郎".to_string());
    assert_eq!(
        event_speech(Event::Join, &m, &v),
        Some(vec!["太郎".to_string(), "さんが参加しました".to_string()])
    );
    assert_eq!(
        event_speech(Event::Leave, &m, &v),
        Some(vec!["太郎".to_string(), "さんが退出しました".to_string()])
    );
    m.user.bot = true;
    assert_eq!(event_speech(Event::Join, &m, &v), None);
}

#[test]
fn messages_read() {
    let mut t = TtsChannel::new();
    t.set(1, 10);
    assert!(message_is_read(&t, 1, 10, &user(5, false, false)));
    assert!(!message_is_read(&t, 1, 11, &user(5, false, false)));
    assert!(!message_is_read(&t, 2, 10, &user(5, false, false)));
    assert!(!message_is_read(&t, 1, 10, &user(5, true, false)));
}

#[test]
fn leave_when_no_person() {
    assert!(should_leave(&vec![]));
    assert!(should_leave(&vec![user(1, true, false), user(2, false, true)]));
    assert!(!should_leave(&vec![user(1, true, false), user(2, false, false)]));
}
