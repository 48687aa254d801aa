//! The speaker (voice) each user has chosen, per guild.

use vstd::prelude::*;
use std::collections::HashMap;
use crate::store::DataError;
use poise::serenity_prelude::{GuildId, UserId};

verus! {

broadcast use vstd::std_specs::hash::group_hash_axioms;

/// The table of guild id to (user id to speaker id) that `serde_json::from_str`
/// reads from a JSON document, or `None` where it fails.
pub uninterp spec fn json_speaker_table(text: Seq<char>) -> Option<Map<u64, Map<u64, u32>>>;

/// The JSON document that `serde_json::to_string` writes for such a table,
/// or `None` where it fails.
pub uninterp spec fn json_of_speaker_table(table: Map<u64, Map<u64, u32>>) -> Option<Seq<char>>;

/// `serde_json::Error`, the error of `serde_json::from_str` and
/// `serde_json::to_string`, carried as an opaque value.
#[verifier::external_type_specification]
#[verifier::external_body]
pub struct ExJsonError(serde_json::Error);

/// The abstract value of the nested maps.
pub open spec fn nested_view(m: HashMap<u64, HashMap<u64, u32>>) -> Map<u64, Map<u64, u32>> {
    Map::new(|g: u64| m@.contains_key(g), |g: u64| m@[g]@)
}

/// No guild id and no user id is 0.
pub open spec fn no_zero_ids(m: Map<u64, Map<u64, u32>>) -> bool {
    &&& !m.contains_key(0)
    &&& forall|g: u64| #[trigger] m.contains_key(g) ==> !m[g].contains_key(0)
}

/// `serde_json::from_str` into `HashMap<GuildId, HashMap<UserId, u32>>`
/// (serenity's ids, which read a key as a non-zero `u64` with `str::parse`),
/// handed out with the ids as `u64`. The result is a function of the text
/// alone, and no id in it is 0.
#[verifier::external_body]
fn json_read_table(text: &str) -> (res: Result<HashMap<u64, HashMap<u64, u32>>, serde_json::Error>)
    ensures
        res is Ok <==> json_speaker_table(text@) is Some,
        res matches Ok(m) ==> nested_view(m) == json_speaker_table(text@)->Some_0 && no_zero_ids(
            nested_view(m),
        ),
{
    match serde_json::from_str::<HashMap<GuildId, HashMap<UserId, u32>>>(text) {
        Ok(m) => Ok(m.into_iter().map(|p| (p.0.get(), p.1.into_iter().map(|q| (q.0.get(), q.1)).collect())).collect()),
        Err(e) => Err(e),
    }
}

/// `serde_json::to_string` of the table gathered into nested `BTreeMap`s, so
/// that the document depends on the table alone. The ids are written as
/// decimal object keys, so that reading the document back with
/// `serde_json::from_str` gives the table again when no id is 0.
#[verifier::external_body]
fn json_write_table(m: &HashMap<u64, HashMap<u64, u32>>) -> (res: Result<String, serde_json::Error>)
    ensures
        res is Ok <==> json_of_speaker_table(nested_view(*m)) is Some,
        res matches Ok(s) ==> s@ == json_of_speaker_table(nested_view(*m))->Some_0,
        res matches Ok(s) ==> (no_zero_ids(nested_view(*m)) ==> json_speaker_table(s@) == Some(
            nested_view(*m),
        )),
{
    let table: std::collections::BTreeMap<u64, std::collections::BTreeMap<u64, u32>> =
        m.iter().map(|p| (*p.0, p.1.iter().map(|q| (*q.0, *q.1)).collect())).collect();
    serde_json::to_string(&table)
}

/// The users of a guild, with no one in it where the guild has no entry.
pub open spec fn guild_users(m: Map<u64, Map<u64, u32>>, guild_id: u64) -> Map<u64, u32> {
    if m.contains_key(guild_id) { m[guild_id] } else { Map::empty() }
}

/// The speaker that `user_id` chose in `guild_id`, if any.
pub open spec fn speaker_of(m: Map<u64, Map<u64, u32>>, guild_id: u64, user_id: u64) -> Option<u32> {
    if guild_users(m, guild_id).contains_key(user_id) {
        Some(guild_users(m, guild_id)[user_id])
    } else {
        None
    }
}

fn take_guild(map: &mut HashMap<u64, HashMap<u64, u32>>, guild_id: u64) -> (res: HashMap<u64, u32>)
    ensures
        res@ == guild_users(nested_view(*old(map)), guild_id),
        nested_view(*final(map)) == nested_view(*old(map)).remove(guild_id),
{
    let r = match map.remove(&guild_id) {
        Some(m) => m,
        None => HashMap::new(),
    };
    assert(nested_view(*map) =~= nested_view(*old(map)).remove(guild_id));
    r
}

fn put_guild(map: &mut HashMap<u64, HashMap<u64, u32>>, guild_id: u64, users: HashMap<u64, u32>)
    ensures
        nested_view(*final(map)) == nested_view(*old(map)).insert(guild_id, users@),
{
    map.insert(guild_id, users);
    assert(nested_view(*map) =~= nested_view(*old(map)).insert(guild_id, users@));
}

/// For each guild, the speaker id each user has chosen.
#[derive(Debug)]
pub struct SpeakerDict {
    map: HashMap<u64, HashMap<u64, u32>>,
}

impl View for SpeakerDict {
    type V = Map<u64, Map<u64, u32>>;

    closed spec fn view(&self) -> Map<u64, Map<u64, u32>> {
        nested_view(self.map)
    }
}

impl SpeakerDict {
    #[verifier::type_invariant]
    closed spec fn wf(self) -> bool {
        no_zero_ids(nested_view(self.map))
    }

    /// No guild and no choice.
    pub fn new() -> (res: SpeakerDict)
        ensures
            res@ == Map::<u64, Map<u64, u32>>::empty(),
    {
        let d = SpeakerDict { map: HashMap::new() };
        assert(d@ =~= Map::<u64, Map<u64, u32>>::empty());
        d
    }

    /// Records that `key` (a user) speaks with `value` in `guild_id`. The
    /// guild gets an entry if it had none. Discord ids are never 0.
    pub fn set(&mut self, guild_id: u64, key: u64, value: u32)
        requires
            guild_id != 0,
            key != 0,
        ensures
            final(self)@ == old(self)@.insert(guild_id, guild_users(old(self)@, guild_id).insert(key, value)),
    {
        proof { use_type_invariant(&*self); }
        let mut map: HashMap<u64, HashMap<u64, u32>> = HashMap::new();
        std::mem::swap(&mut map, &mut self.map);
        let mut users = take_guild(&mut map, guild_id);
        users.insert(key, value);
        put_guild(&mut map, guild_id, users);
        proof {
            let m2 = old(self)@.insert(guild_id, guild_users(old(self)@, guild_id).insert(key, value));
            assert(nested_view(map) =~= m2);
            assert(no_zero_ids(m2));
        }
        self.map = map;
    }

    /// The speaker `key` (a user) chose in `guild_id`, if any.
    pub fn get(&self, guild_id: u64, key: u64) -> (res: Option<u32>)
        ensures
            res == speaker_of(self@, guild_id, key),
    {
        match self.map.get(&guild_id) {
            Some(users) => match users.get(&key) {
                Some(v) => Some(*v),
                None => None,
            },
            None => None,
        }
    }

    /// Forgets the choice of `key` (a user) in `guild_id`. Returns whether
    /// there was one. The guild keeps an entry, empty if it had none.
    /// Discord ids are never 0.
    pub fn remove(&mut self, guild_id: u64, key: &u64) -> (removed: bool)
        requires
            guild_id != 0,
        ensures
            removed == guild_users(old(self)@, guild_id).contains_key(*key),
            final(self)@ == old(self)@.insert(guild_id, guild_users(old(self)@, guild_id).remove(*key)),
    {
        proof { use_type_invariant(&*self); }
        let mut map: HashMap<u64, HashMap<u64, u32>> = HashMap::new();
        std::mem::swap(&mut map, &mut self.map);
        let mut users = take_guild(&mut map, guild_id);
        let removed = match users.remove(key) {
            Some(_) => true,
            None => false,
        };
        put_guild(&mut map, guild_id, users);
        proof {
            let m2 = old(self)@.insert(guild_id, guild_users(old(self)@, guild_id).remove(*key));
            assert(nested_view(map) =~= m2);
            assert(no_zero_ids(m2));
        }
        self.map = map;
        removed
    }

    /// The speaker `user_id` chose in `guild_id`, or `default_speaker_id`.
    pub fn speaker_id(&self, guild_id: u64, user_id: u64, default_speaker_id: u32) -> (res: u32)
        ensures
            res == match speaker_of(self@, guild_id, user_id) {
                Some(v) => v,
                None => default_speaker_id,
            },
    {
        match self.get(guild_id, user_id) {
            Some(v) => v,
            None => default_speaker_id,
        }
    }

    /// Reads the table from its JSON file.
    pub fn from_json(text: &str) -> (res: Result<SpeakerDict, DataError>)
        ensures
            res is Ok <==> json_speaker_table(text@) is Some,
            res matches Ok(d) ==> d@ == json_speaker_table(text@)->Some_0 && no_zero_ids(d@),
            res matches Err(e) ==> e == DataError::Parse,
    {
        match json_read_table(text) {
            Ok(m) => Ok(SpeakerDict { map: m }),
            Err(_) => Err(DataError::Parse),
        }
    }

    /// Writes the table as JSON.
    pub fn to_json(&self) -> (res: Result<String, DataError>)
        ensures
            res is Ok <==> json_of_speaker_table(self@) is Some,
            res matches Ok(s) ==> s@ == json_of_speaker_table(self@)->Some_0,
            res matches Ok(s) ==> json_speaker_table(s@) == Some(self@),
            res matches Err(e) ==> e == DataError::Serialize,
    {
        proof { use_type_invariant(self); }
        match json_write_table(&self.map) {
            Ok(s) => Ok(s),
            Err(_) => Err(DataError::Serialize),
        }
    }
}

} // verus!
