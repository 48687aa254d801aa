//! The text that is turned into speech.

use vstd::prelude::*;
use crate::dictionary::{GuildDictionary, replace_all_spec, guild_entries};
use crate::text::{chars_of, string_of};

verus! {

/// The first `max` characters of `s`, or all of `s` where it is not longer.
pub open spec fn truncate_spec(s: Seq<char>, max: nat) -> Seq<char> {
    if s.len() > max { s.take(max as int) } else { s }
}

/// The text spoken for `text` in `guild_id`: cut to `max_message_length`
/// characters, then with the words of the guild's dictionary replaced by
/// their readings.
pub fn prepare_tts_text(text: &str, max_message_length: usize, dict: &GuildDictionary, guild_id: u64) -> (res: String)
    ensures
        res@ == replace_all_spec(
            truncate_spec(text@, max_message_length as nat),
            guild_entries(dict@, guild_id),
        ),
{
    let cs = chars_of(text);
    let cut: String = if cs.len() > max_message_length {
        let mut t: Vec<char> = Vec::new();
        let mut i: usize = 0;
        while i < max_message_length
            invariant
                i <= max_message_length < cs@.len(),
                t@ == cs@.take(i as int),
            decreases max_message_length - i,
        {
            t.push(cs[i]);
            i = i + 1;
            assert(t@ =~= cs@.take(i as int));
        }
        string_of(&t)
    } else {
        string_of(&cs)
    };
    dict.replace(guild_id, cut.as_str())
}

} // verus!
