//! The reading dictionary: words and how they are read aloud.

use vstd::prelude::*;
use crate::text::{chars_of, string_of, replace_chars, replace_spec};
use crate::store::DataError;
use std::collections::HashMap;
use poise::serenity_prelude::GuildId;

verus! {

broadcast use vstd::std_specs::hash::group_hash_axioms;

/// The abstract entries of a dictionary: (word, reading) pairs in order.
pub type Entries = Seq<(Seq<char>, Seq<char>)>;

/// No word appears twice.
pub open spec fn distinct_keys(es: Entries) -> bool {
    forall|i: int, j: int| 0 <= i < es.len() && 0 <= j < es.len() && i != j ==> es[i].0 != es[j].0
}

/// The reading of `k`, if `k` is a word of the entries.
pub open spec fn lookup(es: Entries, k: Seq<char>) -> Option<Seq<char>>
    decreases es.len(),
{
    if es.len() == 0 {
        None
    } else if es[0].0 == k {
        Some(es[0].1)
    } else {
        lookup(es.drop_first(), k)
    }
}

/// The entries as a map from words to readings.
pub open spec fn as_map(es: Entries) -> Map<Seq<char>, Seq<char>> {
    Map::new(|k: Seq<char>| lookup(es, k) is Some, |k: Seq<char>| lookup(es, k)->Some_0)
}

/// `text` after replacing each word by its reading, one entry after another,
/// in the order of the entries.
pub open spec fn replace_all_spec(text: Seq<char>, es: Entries) -> Seq<char>
    decreases es.len(),
{
    if es.len() == 0 {
        text
    } else {
        replace_spec(replace_all_spec(text, es.drop_last()), es.last().0, es.last().1)
    }
}

/// The views of a list of string pairs.
pub open spec fn pair_views(v: Seq<(String, String)>) -> Entries {
    v.map_values(|p: (String, String)| (p.0@, p.1@))
}

proof fn lemma_lookup_index(es: Entries, k: Seq<char>)
    requires
        distinct_keys(es),
    ensures
        lookup(es, k) is Some <==> exists|i: int| 0 <= i < es.len() && es[i].0 == k,
        forall|i: int| 0 <= i < es.len() && es[i].0 == k ==> lookup(es, k) == Some(es[i].1),
    decreases es.len(),
{
    if es.len() > 0 {
        let rest = es.drop_first();
        assert(distinct_keys(rest)) by {
            assert forall|i: int, j: int| 0 <= i < rest.len() && 0 <= j < rest.len() && i != j
                implies rest[i].0 != rest[j].0 by {
                assert(rest[i] == es[i + 1] && rest[j] == es[j + 1]);
            }
        }
        lemma_lookup_index(rest, k);
        if es[0].0 != k {
            assert forall|i: int| 0 <= i < es.len() && es[i].0 == k implies 0 <= i - 1 < rest.len()
                && rest[i - 1].0 == k by {
                assert(i != 0);
            }
            if exists|i: int| 0 <= i < es.len() && es[i].0 == k {
                let i = choose|i: int| 0 <= i < es.len() && es[i].0 == k;
                assert(rest[i - 1] == es[i]);
            }
            if exists|i: int| 0 <= i < rest.len() && rest[i].0 == k {
                let i = choose|i: int| 0 <= i < rest.len() && rest[i].0 == k;
                assert(es[i + 1] == rest[i]);
            }
        }
    }
}

/// Adding an entry for a new word: the word now reads as given, and the
/// other words are unchanged.
proof fn lemma_push_entry(es: Entries, k: Seq<char>, v: Seq<char>)
    requires
        distinct_keys(es),
        forall|i: int| 0 <= i < es.len() ==> es[i].0 != k,
    ensures
        distinct_keys(es.push((k, v))),
        as_map(es.push((k, v))) == as_map(es).insert(k, v),
{
    let es2 = es.push((k, v));
    assert(distinct_keys(es2)) by {
        assert forall|i: int, j: int| 0 <= i < es2.len() && 0 <= j < es2.len() && i != j
            implies es2[i].0 != es2[j].0 by {
            if i < es.len() && j < es.len() {
                assert(es2[i] == es[i] && es2[j] == es[j]);
            }
        }
    }
    assert forall|k2: Seq<char>| #[trigger] lookup(es2, k2) == (if k2 == k { Some(v) } else { lookup(es, k2) }) by {
        lemma_lookup_index(es, k2);
        lemma_lookup_index(es2, k2);
        if k2 == k {
            assert(es2[es.len() as int].0 == k);
        } else {
            if exists|i: int| 0 <= i < es.len() && es[i].0 == k2 {
                let i = choose|i: int| 0 <= i < es.len() && es[i].0 == k2;
                assert(es2[i] == es[i]);
            }
            if exists|i: int| 0 <= i < es2.len() && es2[i].0 == k2 {
                let i = choose|i: int| 0 <= i < es2.len() && es2[i].0 == k2;
                assert(es2[i] == es[i]);
            }
        }
    }
    assert(as_map(es2) =~= as_map(es).insert(k, v));
}

/// Changing the reading of an existing word: the word now reads as given,
/// and the other words are unchanged.
proof fn lemma_update_entry(es: Entries, i: int, v: Seq<char>)
    requires
        distinct_keys(es),
        0 <= i < es.len(),
    ensures
        distinct_keys(es.update(i, (es[i].0, v))),
        as_map(es.update(i, (es[i].0, v))) == as_map(es).insert(es[i].0, v),
{
    let k = es[i].0;
    let es2 = es.update(i, (k, v));
    assert(distinct_keys(es2)) by {
        assert forall|a: int, b: int| 0 <= a < es2.len() && 0 <= b < es2.len() && a != b
            implies es2[a].0 != es2[b].0 by {
            assert(es2[a].0 == es[a].0 && es2[b].0 == es[b].0);
        }
    }
    assert forall|k2: Seq<char>| #[trigger] lookup(es2, k2) == (if k2 == k { Some(v) } else { lookup(es, k2) }) by {
        lemma_lookup_index(es, k2);
        lemma_lookup_index(es2, k2);
        if k2 == k {
            assert(es2[i] == (k, v));
        } else {
            if exists|j: int| 0 <= j < es.len() && es[j].0 == k2 {
                let j = choose|j: int| 0 <= j < es.len() && es[j].0 == k2;
                assert(es2[j] == es[j]);
            }
            if exists|j: int| 0 <= j < es2.len() && es2[j].0 == k2 {
                let j = choose|j: int| 0 <= j < es2.len() && es2[j].0 == k2;
                assert(es2[j] == es[j]);
            }
        }
    }
    assert(as_map(es2) =~= as_map(es).insert(k, v));
}

/// Removing the entry of a word: the word no longer has a reading, and the
/// other words are unchanged.
proof fn lemma_remove_entry(es: Entries, i: int)
    requires
        distinct_keys(es),
        0 <= i < es.len(),
    ensures
        distinct_keys(es.remove(i)),
        as_map(es.remove(i)) == as_map(es).remove(es[i].0),
{
    let k = es[i].0;
    let es2 = es.remove(i);
    assert forall|a: int| 0 <= a < es2.len() implies #[trigger] es2[a] == es[if a < i { a } else { a + 1 }] by {}
    assert(distinct_keys(es2)) by {
        assert forall|a: int, b: int| 0 <= a < es2.len() && 0 <= b < es2.len() && a != b
            implies es2[a].0 != es2[b].0 by {
            assert(es2[a] == es[if a < i { a } else { a + 1 }]);
            assert(es2[b] == es[if b < i { b } else { b + 1 }]);
        }
    }
    assert forall|k2: Seq<char>| #[trigger] lookup(es2, k2) == (if k2 == k { None } else { lookup(es, k2) }) by {
        lemma_lookup_index(es, k2);
        lemma_lookup_index(es2, k2);
        if k2 == k {
            if exists|j: int| 0 <= j < es2.len() && es2[j].0 == k2 {
                let j = choose|j: int| 0 <= j < es2.len() && es2[j].0 == k2;
                assert(es2[j] == es[if j < i { j } else { j + 1 }]);
            }
        } else {
            if exists|j: int| 0 <= j < es.len() && es[j].0 == k2 {
                let j = choose|j: int| 0 <= j < es.len() && es[j].0 == k2;
                assert(j != i);
                let j2 = if j < i { j } else { j - 1 };
                assert(es2[j2] == es[j]);
            }
            if exists|j: int| 0 <= j < es2.len() && es2[j].0 == k2 {
                let j = choose|j: int| 0 <= j < es2.len() && es2[j].0 == k2;
                assert(es2[j] == es[if j < i { j } else { j + 1 }]);
            }
        }
    }
    assert(as_map(es2) =~= as_map(es).remove(k));
}

/// The table of string keys and string values that `toml::from_str` reads
/// from a TOML document, or `None` where it fails.
pub uninterp spec fn toml_string_table(text: Seq<char>) -> Option<Map<Seq<char>, Seq<char>>>;

/// The TOML document that `toml::to_string` writes for a table of string
/// keys and string values, or `None` where it fails.
pub uninterp spec fn toml_of_string_table(table: Map<Seq<char>, Seq<char>>) -> Option<Seq<char>>;

/// `toml::de::Error`, the error of `toml::from_str`, carried as an opaque value.
#[verifier::external_type_specification]
#[verifier::external_body]
pub struct ExTomlDeError(toml::de::Error);

/// `toml::ser::Error`, the error of `toml::to_string`, carried as an opaque value.
#[verifier::external_type_specification]
#[verifier::external_body]
pub struct ExTomlSerError(toml::ser::Error);

/// `toml::from_str` into a `HashMap<String, String>`, handed out as its
/// (key, value) pairs. The result is a function of the text alone; the pairs
/// come in the map's iteration order, which is left open, and their keys
/// are distinct.
#[verifier::external_body]
fn toml_read_table(text: &str) -> (res: Result<Vec<(String, String)>, toml::de::Error>)
    ensures
        res is Ok <==> toml_string_table(text@) is Some,
        res matches Ok(v) ==> distinct_keys(pair_views(v@)) && as_map(pair_views(v@))
            == toml_string_table(text@)->Some_0,
{
    match toml::from_str::<std::collections::HashMap<String, String>>(text) {
        Ok(m) => Ok(m.into_iter().collect()),
        Err(e) => Err(e),
    }
}

/// `toml::to_string` of the pairs gathered into a `BTreeMap<&str, &str>`, so
/// that the document depends on the table alone. The document is a TOML
/// table of string values, so `toml::from_str` reads the same table back.
#[verifier::external_body]
fn toml_write_table(entries: &Vec<(String, String)>) -> (res: Result<String, toml::ser::Error>)
    requires
        distinct_keys(pair_views(entries@)),
    ensures
        res is Ok <==> toml_of_string_table(as_map(pair_views(entries@))) is Some,
        res matches Ok(s) ==> s@ == toml_of_string_table(as_map(pair_views(entries@)))->Some_0,
        res matches Ok(s) ==> toml_string_table(s@) == Some(as_map(pair_views(entries@))),
{
    let table: std::collections::BTreeMap<&str, &str> =
        entries.iter().map(|p| (p.0.as_str(), p.1.as_str())).collect();
    toml::to_string(&table)
}

/// A dictionary of words and their readings. No word appears twice.
#[derive(Debug)]
pub struct Dictionary {
    entries: Vec<(String, String)>,
}

impl View for Dictionary {
    type V = Entries;

    closed spec fn view(&self) -> Entries {
        pair_views(self.entries@)
    }
}

impl Dictionary {
    #[verifier::type_invariant]
    closed spec fn wf(self) -> bool {
        distinct_keys(pair_views(self.entries@))
    }

    /// An empty dictionary.
    pub fn new() -> (res: Dictionary)
        ensures
            res@ == Seq::<(Seq<char>, Seq<char>)>::empty(),
    {
        let d = Dictionary { entries: Vec::new() };
        assert(pair_views(d.entries@) =~= Seq::<(Seq<char>, Seq<char>)>::empty());
        d
    }

    /// Position of `key` among the entries, if it is a word of the dictionary.
    fn find(&self, key: &str) -> (res: Option<usize>)
        ensures
            match res {
                Some(i) => i < self@.len() && self@[i as int].0 == key@,
                None => forall|i: int| 0 <= i < self@.len() ==> self@[i].0 != key@,
            },
    {
        let mut i: usize = 0;
        while i < self.entries.len()
            invariant
                i <= self.entries@.len(),
                self@ == pair_views(self.entries@),
                forall|j: int| 0 <= j < i ==> self@[j].0 != key@,
            decreases self.entries@.len() - i,
        {
            assert(self@[i as int].0 == self.entries@[i as int].0@);
            if str_eq(self.entries[i].0.as_str(), key) {
                return Some(i);
            }
            i = i + 1;
        }
        None
    }

    /// The reading of `key`, if it is a word of the dictionary.
    pub fn get(&self, key: &str) -> (res: Option<String>)
        ensures
            match res {
                Some(v) => lookup(self@, key@) == Some(v@),
                None => lookup(self@, key@) is None,
            },
    {
        proof {
            use_type_invariant(self);
            lemma_lookup_index(self@, key@);
        }
        match self.find(key) {
            Some(i) => {
                assert(self@[i as int].1 == self.entries@[i as int].1@);
                Some(self.entries[i].1.clone())
            },
            None => None,
        }
    }

    /// Sets the reading of `key` to `value`. Returns whether `key` was not a
    /// word of the dictionary before. A new word goes after all the others;
    /// an existing word keeps its place.
    pub fn set(&mut self, key: String, value: String) -> (added: bool)
        ensures
            added == !as_map(old(self)@).contains_key(key@),
            as_map(final(self)@) == as_map(old(self)@).insert(key@, value@),
            added ==> final(self)@ == old(self)@.push((key@, value@)),
            !added ==> exists|i: int| 0 <= i < old(self)@.len() && old(self)@[i].0 == key@
                && final(self)@ == old(self)@.update(i, (key@, value@)),
    {
        proof {
            use_type_invariant(&*self);
            lemma_lookup_index(self@, key@);
        }
        let found = self.find(key.as_str());
        let mut es: Vec<(String, String)> = Vec::new();
        std::mem::swap(&mut es, &mut self.entries);
        let ghost old_es = pair_views(es@);
        match found {
            Some(i) => {
                let ghost k = old_es[i as int].0;
                es.set(i, (key, value));
                proof {
                    lemma_update_entry(old_es, i as int, value@);
                    assert(pair_views(es@) =~= old_es.update(i as int, (k, value@)));
                }
                self.entries = es;
                false
            },
            None => {
                let ghost kv = key@;
                es.push((key, value));
                proof {
                    lemma_push_entry(old_es, kv, value@);
                    assert(pair_views(es@) =~= old_es.push((kv, value@)));
                }
                self.entries = es;
                true
            },
        }
    }

    /// Removes `key` and its reading. Returns whether `key` was a word of the
    /// dictionary. The other entries keep their order.
    pub fn remove(&mut self, key: &str) -> (removed: bool)
        ensures
            removed == as_map(old(self)@).contains_key(key@),
            as_map(final(self)@) == as_map(old(self)@).remove(key@),
            removed ==> exists|i: int| 0 <= i < old(self)@.len() && old(self)@[i].0 == key@
                && final(self)@ == old(self)@.remove(i),
            !removed ==> final(self)@ == old(self)@,
    {
        proof {
            use_type_invariant(&*self);
            lemma_lookup_index(self@, key@);
        }
        match self.find(key) {
            Some(i) => {
                let mut es: Vec<(String, String)> = Vec::new();
                std::mem::swap(&mut es, &mut self.entries);
                let ghost old_es = pair_views(es@);
                let _ = es.remove(i);
                proof {
                    lemma_remove_entry(old_es, i as int);
                    assert(pair_views(es@) =~= old_es.remove(i as int));
                }
                self.entries = es;
                true
            },
            None => {
                assert(as_map(self@) =~= as_map(self@).remove(key@));
                false
            },
        }
    }

    /// Reads a dictionary from its TOML file: a table of words to readings.
    pub fn from_toml(text: &str) -> (res: Result<Dictionary, DataError>)
        ensures
            res is Ok <==> toml_string_table(text@) is Some,
            res matches Ok(d) ==> as_map(d@) == toml_string_table(text@)->Some_0,
            res matches Err(e) ==> e == DataError::Parse,
    {
        match toml_read_table(text) {
            Ok(v) => Ok(Dictionary { entries: v }),
            Err(_) => Err(DataError::Parse),
        }
    }

    /// Writes the dictionary as a TOML table of words to readings.
    pub fn to_toml(&self) -> (res: Result<String, DataError>)
        ensures
            res is Ok <==> toml_of_string_table(as_map(self@)) is Some,
            res matches Ok(s) ==> s@ == toml_of_string_table(as_map(self@))->Some_0,
            res matches Ok(s) ==> toml_string_table(s@) == Some(as_map(self@)),
            res matches Err(e) ==> e == DataError::Serialize,
    {
        proof { use_type_invariant(self); }
        match toml_write_table(&self.entries) {
            Ok(s) => Ok(s),
            Err(_) => Err(DataError::Serialize),
        }
    }

    /// The entries, in order.
    pub fn entries(&self) -> (res: &Vec<(String, String)>)
        ensures
            pair_views(res@) == self@,
    {
        &self.entries
    }

    /// Replaces each word in `text` by its reading, entry by entry in order,
    /// as `str::replace` does for each.
    pub fn replace(&self, text: &str) -> (res: String)
        ensures
            res@ == replace_all_spec(text@, self@),
    {
        let mut cur = chars_of(text);
        let mut i: usize = 0;
        while i < self.entries.len()
            invariant
                i <= self.entries@.len(),
                self@ == pair_views(self.entries@),
                cur@ == replace_all_spec(text@, self@.take(i as int)),
            decreases self.entries@.len() - i,
        {
            assert(self@.take(i + 1).drop_last() =~= self@.take(i as int));
            assert(self@[i as int] == (self.entries@[i as int].0@, self.entries@[i as int].1@));
            let from = chars_of(self.entries[i].0.as_str());
            let to = chars_of(self.entries[i].1.as_str());
            cur = replace_chars(&cur, &from, &to);
            i = i + 1;
        }
        assert(self@.take(self.entries@.len() as int) =~= self@);
        string_of(&cur)
    }
}

/// Whether two strings are equal.
fn str_eq(a: &str, b: &str) -> (res: bool)
    ensures
        res == (a@ == b@),
{
    let x = chars_of(a);
    let y = chars_of(b);
    if x.len() != y.len() {
        return false;
    }
    let mut i: usize = 0;
    while i < x.len()
        invariant
            x@ == a@,
            y@ == b@,
            x@.len() == y@.len(),
            i <= x@.len(),
            forall|j: int| 0 <= j < i ==> x@[j] == y@[j],
        decreases x@.len() - i,
    {
        if x[i] != y[i] {
            assert(x@[i as int] != y@[i as int]);
            return false;
        }
        i = i + 1;
    }
    assert(x@ =~= y@);
    true
}


/// The table of guild id to (word to reading) that `toml::from_str` reads
/// from a TOML document with serenity's `GuildId` keys, or `None` where it
/// fails.
pub uninterp spec fn toml_guild_table(text: Seq<char>) -> Option<Map<u64, Map<Seq<char>, Seq<char>>>>;

/// The TOML document that `toml::to_string` writes for such a table, or
/// `None` where it fails.
pub uninterp spec fn toml_of_guild_table(table: Map<u64, Map<Seq<char>, Seq<char>>>) -> Option<Seq<char>>;

/// The entries of each guild's dictionary.
pub open spec fn dict_map_view(m: HashMap<u64, Dictionary>) -> Map<u64, Entries> {
    Map::new(|g: u64| m@.contains_key(g), |g: u64| m@[g]@)
}

/// Each guild's dictionary as a map from words to readings.
pub open spec fn guild_maps(m: Map<u64, Entries>) -> Map<u64, Map<Seq<char>, Seq<char>>> {
    Map::new(|g: u64| m.contains_key(g), |g: u64| as_map(m[g]))
}

/// The entries of a guild's dictionary; none where the guild has none.
pub open spec fn guild_entries(m: Map<u64, Entries>, guild_id: u64) -> Entries {
    if m.contains_key(guild_id) { m[guild_id] } else { Seq::empty() }
}

/// `toml::from_str` into `HashMap<GuildId, HashMap<String, String>>` (serenity's
/// `GuildId`, which reads a key as a non-zero `u64` with `str::parse`), handed
/// out with the ids as `u64` and each guild's pairs as a dictionary, in the
/// inner map's iteration order, which is left open. The result is a function
/// of the text alone, and no guild id in it is 0.
#[verifier::external_body]
fn toml_read_guild_table(text: &str) -> (res: Result<HashMap<u64, Dictionary>, toml::de::Error>)
    ensures
        res is Ok <==> toml_guild_table(text@) is Some,
        res matches Ok(m) ==> guild_maps(dict_map_view(m)) == toml_guild_table(text@)->Some_0
            && !m@.contains_key(0),
{
    match toml::from_str::<HashMap<GuildId, HashMap<String, String>>>(text) {
        Ok(m) => Ok(m.into_iter().map(|p| (p.0.get(), Dictionary { entries: p.1.into_iter().collect() })).collect()),
        Err(e) => Err(e),
    }
}

/// `toml::to_string` of the table gathered into nested `BTreeMap`s keyed by
/// `GuildId` and by word, so that the document depends on the table alone.
/// The guild ids are written as decimal table names, so `toml::from_str`
/// reads the same table back.
#[verifier::external_body]
fn toml_write_guild_table(m: &HashMap<u64, Dictionary>) -> (res: Result<String, toml::ser::Error>)
    requires
        !m@.contains_key(0),
    ensures
        res is Ok <==> toml_of_guild_table(guild_maps(dict_map_view(*m))) is Some,
        res matches Ok(s) ==> s@ == toml_of_guild_table(guild_maps(dict_map_view(*m)))->Some_0,
        res matches Ok(s) ==> toml_guild_table(s@) == Some(guild_maps(dict_map_view(*m))),
{
    let table: std::collections::BTreeMap<GuildId, std::collections::BTreeMap<&str, &str>> = m.iter()
        .map(|p| (GuildId::new(*p.0), p.1.entries.iter().map(|q| (q.0.as_str(), q.1.as_str())).collect()))
        .collect();
    toml::to_string(&table)
}

/// A dictionary for each guild, by guild id.
#[derive(Debug)]
pub struct GuildDictionary {
    guilds: HashMap<u64, Dictionary>,
}

impl View for GuildDictionary {
    type V = Map<u64, Entries>;

    closed spec fn view(&self) -> Map<u64, Entries> {
        dict_map_view(self.guilds)
    }
}

impl GuildDictionary {
    #[verifier::type_invariant]
    closed spec fn wf(self) -> bool {
        !self.guilds@.contains_key(0)
    }

    /// No guild has a dictionary.
    pub fn new() -> (res: GuildDictionary)
        ensures
            res@ == Map::<u64, Entries>::empty(),
    {
        let d = GuildDictionary { guilds: HashMap::new() };
        assert(d@ =~= Map::<u64, Entries>::empty());
        d
    }

    /// The dictionary of `guild_id`, if it has one.
    pub fn guild(&self, guild_id: u64) -> (res: Option<&Dictionary>)
        ensures
            match res {
                Some(d) => self@.contains_key(guild_id) && d@ == self@[guild_id],
                None => !self@.contains_key(guild_id),
            },
    {
        self.guilds.get(&guild_id)
    }

    /// The reading of `key` in the dictionary of `guild_id`, if any.
    pub fn get(&self, guild_id: u64, key: &str) -> (res: Option<String>)
        ensures
            match res {
                Some(v) => lookup(guild_entries(self@, guild_id), key@) == Some(v@),
                None => lookup(guild_entries(self@, guild_id), key@) is None,
            },
    {
        match self.guilds.get(&guild_id) {
            Some(d) => d.get(key),
            None => None,
        }
    }

    /// Adds `key` read as `value` to the dictionary of `guild_id`, which the
    /// guild gets if it had none. A word already there keeps its reading.
    /// Returns whether `key` was added. Other guilds are unchanged. Discord
    /// ids are never 0.
    pub fn set(&mut self, guild_id: u64, key: String, value: String) -> (added: bool)
        requires
            guild_id != 0,
        ensures
            ({
                let before = guild_entries(old(self)@, guild_id);
                &&& added == !as_map(before).contains_key(key@)
                &&& added ==> final(self)@ == old(self)@.insert(guild_id, before.push((key@, value@)))
                &&& added ==> as_map(final(self)@[guild_id]) == as_map(before).insert(key@, value@)
                &&& !added ==> final(self)@ == old(self)@
            }),
    {
        proof { use_type_invariant(&*self); }
        let known = match self.guilds.get(&guild_id) {
            Some(d) => d.get(key.as_str()).is_some(),
            None => false,
        };
        if known {
            return false;
        }
        let mut guilds: HashMap<u64, Dictionary> = HashMap::new();
        std::mem::swap(&mut guilds, &mut self.guilds);
        let mut d = match guilds.remove(&guild_id) {
            Some(d) => d,
            None => Dictionary::new(),
        };
        let added = d.set(key, value);
        guilds.insert(guild_id, d);
        proof {
            assert(dict_map_view(guilds) =~= old(self)@.insert(guild_id, dict_map_view(guilds)[guild_id]));
        }
        self.guilds = guilds;
        added
    }

    /// Removes `key` from the dictionary of `guild_id`. Returns whether it
    /// was a word of it. Other guilds are unchanged, and a guild without a
    /// dictionary still has none.
    pub fn remove(&mut self, guild_id: u64, key: &str) -> (removed: bool)
        ensures
            ({
                let before = guild_entries(old(self)@, guild_id);
                let after = final(self)@[guild_id];
                &&& removed == as_map(before).contains_key(key@)
                &&& !old(self)@.contains_key(guild_id) ==> final(self)@ == old(self)@
                &&& old(self)@.contains_key(guild_id) ==> {
                    &&& final(self)@ == old(self)@.insert(guild_id, after)
                    &&& as_map(after) == as_map(before).remove(key@)
                    &&& removed ==> exists|i: int| 0 <= i < before.len() && before[i].0 == key@
                        && after == before.remove(i)
                    &&& !removed ==> after == before
                }
            }),
    {
        proof { use_type_invariant(&*self); }
        if !self.guilds.contains_key(&guild_id) {
            assert(as_map(Seq::<(Seq<char>, Seq<char>)>::empty()) =~= Map::<Seq<char>, Seq<char>>::empty());
            return false;
        }
        let mut guilds: HashMap<u64, Dictionary> = HashMap::new();
        std::mem::swap(&mut guilds, &mut self.guilds);
        let mut d = guilds.remove(&guild_id).unwrap();
        let removed = d.remove(key);
        guilds.insert(guild_id, d);
        assert(dict_map_view(guilds) =~= old(self)@.insert(guild_id, dict_map_view(guilds)[guild_id]));
        self.guilds = guilds;
        removed
    }

    /// Replaces each word of the dictionary of `guild_id` in `text` by its
    /// reading, as `Dictionary::replace` does; a guild without a dictionary
    /// leaves the text as it is.
    pub fn replace(&self, guild_id: u64, text: &str) -> (res: String)
        ensures
            res@ == replace_all_spec(text@, guild_entries(self@, guild_id)),
    {
        match self.guilds.get(&guild_id) {
            Some(d) => d.replace(text),
            None => String::from_str(text),
        }
    }

    /// Reads the dictionaries from their TOML file: a table of guild ids to
    /// tables of words to readings.
    pub fn from_toml(text: &str) -> (res: Result<GuildDictionary, DataError>)
        ensures
            res is Ok <==> toml_guild_table(text@) is Some,
            res matches Ok(d) ==> guild_maps(d@) == toml_guild_table(text@)->Some_0 && !d@.contains_key(0),
            res matches Err(e) ==> e == DataError::Parse,
    {
        match toml_read_guild_table(text) {
            Ok(m) => Ok(GuildDictionary { guilds: m }),
            Err(_) => Err(DataError::Parse),
        }
    }

    /// Writes the dictionaries as TOML.
    pub fn to_toml(&self) -> (res: Result<String, DataError>)
        ensures
            res is Ok <==> toml_of_guild_table(guild_maps(self@)) is Some,
            res matches Ok(s) ==> s@ == toml_of_guild_table(guild_maps(self@))->Some_0,
            res matches Ok(s) ==> toml_guild_table(s@) == Some(guild_maps(self@)),
            res matches Err(e) ==> e == DataError::Serialize,
    {
        proof { use_type_invariant(self); }
        match toml_write_guild_table(&self.guilds) {
            Ok(s) => Ok(s),
            Err(_) => Err(DataError::Serialize),
        }
    }
}

} // verus!
