//! Which text channel is read aloud in each guild.

use vstd::prelude::*;
use std::collections::HashMap;

verus! {

broadcast use vstd::std_specs::hash::group_hash_axioms;

/// The channel read aloud in `guild_id`, if any.
pub open spec fn channel_of(m: Map<u64, u64>, guild_id: u64) -> Option<u64> {
    if m.contains_key(guild_id) { Some(m[guild_id]) } else { None }
}

/// Whether `channel_id` is the channel read aloud in `guild_id`.
pub open spec fn reads_channel(m: Map<u64, u64>, guild_id: u64, channel_id: u64) -> bool {
    m.contains_key(guild_id) && m[guild_id] == channel_id
}

/// For each guild (by id), the text channel (by id) whose messages are read aloud.
#[derive(Debug)]
pub struct TtsChannel {
    channels: HashMap<u64, u64>,
}

impl View for TtsChannel {
    type V = Map<u64, u64>;

    closed spec fn view(&self) -> Map<u64, u64> {
        self.channels@
    }
}

impl TtsChannel {
    /// No guild has a channel.
    pub fn new() -> (res: TtsChannel)
        ensures
            res@ == Map::<u64, u64>::empty(),
    {
        TtsChannel { channels: HashMap::new() }
    }

    /// Reads `channel_id` aloud in `guild_id`, in place of any channel before.
    /// Discord ids are never 0.
    pub fn set(&mut self, guild_id: u64, channel_id: u64)
        requires
            guild_id != 0,
            channel_id != 0,
        ensures
            final(self)@ == old(self)@.insert(guild_id, channel_id),
    {
        self.channels.insert(guild_id, channel_id);
    }

    /// Stops reading any channel in `guild_id`.
    pub fn remove(&mut self, guild_id: u64)
        ensures
            final(self)@ == old(self)@.remove(guild_id),
    {
        self.channels.remove(&guild_id);
    }

    /// The channel read aloud in `guild_id`, if any.
    pub fn get(&self, guild_id: u64) -> (res: Option<u64>)
        ensures
            res == channel_of(self@, guild_id),
    {
        match self.channels.get(&guild_id) {
            Some(c) => Some(*c),
            None => None,
        }
    }

    /// Whether `channel_id` is the channel read aloud in `guild_id`.
    pub fn has_eq(&self, guild_id: u64, channel_id: u64) -> (res: bool)
        ensures
            res == reads_channel(self@, guild_id, channel_id),
    {
        match self.channels.get(&guild_id) {
            Some(c) => *c == channel_id,
            None => false,
        }
    }
}

} // verus!
