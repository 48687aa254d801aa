//! The decisions the bot makes on Discord events.

use vstd::prelude::*;
use crate::cache::{TtsChannel, reads_channel};
use crate::discord::{Member, User, is_human, is_human_spec, get_user_read_name, read_name_spec};
use crate::messages::{VoiceConfig, part_text, str_views};

verus! {

/// Someone came into, or went out of, the voice channel the bot is in.
#[derive(Debug, Clone, Copy, PartialEq, Eq)]
pub enum Event {
    Join,
    Leave,
}

/// A member's voice state, as far as the bot looks at it.
#[derive(Debug)]
pub struct VoiceState {
    /// The voice channel the member is in, if any.
    pub channel_id: Option<u64>,
    /// The member, where Discord sends it.
    pub member: Option<Member>,
}

/// Whether a voice state is in the given channel.
pub open spec fn in_channel(state: Option<VoiceState>, channel_id: u64) -> bool {
    state matches Some(s) && s.channel_id == Some(channel_id)
}

/// What a voice state update means to a bot in `bot_channel`: a member that
/// was in it and is now in no channel has left; a member that was not in it
/// and now is has joined. Without a member nothing is said.
pub open spec fn voice_event_spec(bot_channel: u64, old: Option<VoiceState>, new: VoiceState) -> Option<Event> {
    if new.member is None {
        None
    } else if in_channel(old, bot_channel) && new.channel_id is None {
        Some(Event::Leave)
    } else if new.channel_id == Some(bot_channel) && !in_channel(old, bot_channel) {
        Some(Event::Join)
    } else {
        None
    }
}

/// What a voice state update means to a bot in the voice channel `bot_channel`.
pub fn voice_state_event(bot_channel: u64, old: &Option<VoiceState>, new: &VoiceState) -> (res: Option<Event>)
    ensures
        res == voice_event_spec(bot_channel, *old, *new),
{
    if new.member.is_none() {
        return None;
    }
    let was_in = match old {
        Some(o) => match o.channel_id {
            Some(c) => c == bot_channel,
            None => false,
        },
        None => false,
    };
    match new.channel_id {
        None => if was_in { Some(Event::Leave) } else { None },
        Some(c) => if c == bot_channel && !was_in { Some(Event::Join) } else { None },
    }
}

/// What is spoken, one piece at a time, when `member` joins or leaves: the
/// join or leave message with the member's name. Nothing is spoken for a
/// bot or a system account.
pub fn event_speech(event: Event, member: &Member, voice: &VoiceConfig) -> (res: Option<Vec<String>>)
    ensures
        res is None <==> !is_human_spec(member.user),
        res matches Some(segs) ==> {
            let msg = match event {
                Event::Join => voice.join@,
                Event::Leave => voice.leave@,
            };
            &&& segs@.len() == msg.len()
            &&& forall|i: int| 0 <= i < segs@.len() ==> #[trigger] segs@[i]@ == part_text(
                msg[i],
                seq![read_name_spec(*member)],
            )
        },
{
    if !is_human(&member.user) {
        return None;
    }
    let name = get_user_read_name(member);
    let args: [&str; 1] = [name];
    assert(str_views(args@) =~= seq![read_name_spec(*member)]);
    match event {
        Event::Join => Some(voice.join.segments(&args)),
        Event::Leave => Some(voice.leave.segments(&args)),
    }
}

/// Whether a message is read aloud: it was written in the channel read in
/// its guild, by a person.
pub fn message_is_read(tts_channel: &TtsChannel, guild_id: u64, channel_id: u64, author: &User) -> (res: bool)
    ensures
        res == (reads_channel(tts_channel@, guild_id, channel_id) && is_human_spec(*author)),
{
    tts_channel.has_eq(guild_id, channel_id) && is_human(author)
}

/// Whether the bot should leave a voice channel with these users in it:
/// when none of them is a person.
pub fn should_leave(users: &Vec<User>) -> (res: bool)
    ensures
        res == forall|i: int| 0 <= i < users@.len() ==> !is_human_spec(#[trigger] users@[i]),
{
    let mut i: usize = 0;
    while i < users.len()
        invariant
            i <= users@.len(),
            forall|j: int| 0 <= j < i ==> !is_human_spec(#[trigger] users@[j]),
        decreases users@.len() - i,
    {
        if is_human(&users[i]) {
            return false;
        }
        i = i + 1;
    }
    true
}

} // verus!
