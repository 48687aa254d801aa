//! The voices (speakers) the bot offers, and choosing one.

use vstd::prelude::*;
use crate::text::{
    IntErrorKind, chars_of, string_of, matches_at, parse_unsigned, parse_unsigned_spec,
    decimal_chars, decimal_spec,
};

verus! {

/// The custom id of the menu in which a user picks a voice.
pub const VOICE_SELECT_MENU_CUSTOM_ID: &'static str = "voicevox_voice";

/// One style of a voice character.
#[derive(Debug)]
pub struct VoiceStyles {
    pub name: String,
    /// The speaker id of this style.
    pub id: u32,
    /// The kind of style; ordinary talking styles have none.
    pub kind: Option<String>,
}

/// A voice character and its styles.
#[derive(Debug)]
pub struct VoiceCharacter {
    pub name: String,
    pub styles: Vec<VoiceStyles>,
}

/// The offered voices of one character: each style without a kind, as
/// ("character-style", speaker id), in order.
pub open spec fn style_entries(character: Seq<char>, styles: Seq<VoiceStyles>) -> Seq<(Seq<char>, u32)>
    decreases styles.len(),
{
    if styles.len() == 0 {
        Seq::empty()
    } else {
        let rest = style_entries(character, styles.drop_last());
        let s = styles.last();
        if s.kind is None {
            rest.push((character + seq!['-'] + s.name@, s.id))
        } else {
            rest
        }
    }
}

/// The offered voices of all characters, character after character.
pub open spec fn all_voices_spec(voices: Seq<VoiceCharacter>) -> Seq<(Seq<char>, u32)>
    decreases voices.len(),
{
    if voices.len() == 0 {
        Seq::empty()
    } else {
        all_voices_spec(voices.drop_last()) + style_entries(voices.last().name@, voices.last().styles@)
    }
}

/// The views of a list of (name, id) pairs.
pub open spec fn voice_views(v: Seq<(String, u32)>) -> Seq<(Seq<char>, u32)> {
    v.map_values(|p: (String, u32)| (p.0@, p.1))
}

/// The voices the bot offers: for each character, each of its styles
/// without a kind, named "character-style", with its speaker id.
pub fn all_voices(voices: &Vec<VoiceCharacter>) -> (res: Vec<(String, u32)>)
    ensures
        voice_views(res@) == all_voices_spec(voices@),
{
    let mut out: Vec<(String, u32)> = Vec::new();
    let mut i: usize = 0;
    assert(voice_views(out@) =~= all_voices_spec(voices@.take(0)));
    while i < voices.len()
        invariant
            i <= voices@.len(),
            voice_views(out@) == all_voices_spec(voices@.take(i as int)),
        decreases voices@.len() - i,
    {
        let v = &voices[i];
        let ghost before = voice_views(out@);
        let cname = chars_of(v.name.as_str());
        let mut j: usize = 0;
        assert(style_entries(v.name@, v.styles@.take(0)) =~= Seq::<(Seq<char>, u32)>::empty());
        assert(before + Seq::<(Seq<char>, u32)>::empty() =~= before);
        while j < v.styles.len()
            invariant
                j <= v.styles@.len(),
                cname@ == v.name@,
                voice_views(out@) == before + style_entries(v.name@, v.styles@.take(j as int)),
            decreases v.styles@.len() - j,
        {
            let s = &v.styles[j];
            assert(v.styles@.take(j + 1).drop_last() =~= v.styles@.take(j as int));
            assert(v.styles@.take(j + 1).last() == *s);
            if s.kind.is_none() {
                let mut full = cname.clone();
                full.push('-');
                let sname = chars_of(s.name.as_str());
                let mut k: usize = 0;
                while k < sname.len()
                    invariant
                        k <= sname@.len(),
                        full@ == cname@ + seq!['-'] + sname@.take(k as int),
                    decreases sname@.len() - k,
                {
                    full.push(sname[k]);
                    k = k + 1;
                    assert(full@ =~= cname@ + seq!['-'] + sname@.take(k as int));
                }
                assert(sname@.take(sname@.len() as int) =~= sname@);
                let ghost prev = voice_views(out@);
                out.push((string_of(&full), s.id));
                assert(voice_views(out@) =~= prev.push((full@, s.id)));
            }
            j = j + 1;
        }
        assert(v.styles@.take(v.styles@.len() as int) =~= v.styles@);
        assert(voices@.take(i + 1).drop_last() =~= voices@.take(i as int));
        assert(voices@.take(i + 1).last() == voices@[i as int]);
        i = i + 1;
    }
    assert(voices@.take(voices@.len() as int) =~= voices@);
    out
}

/// The name of the first voice with speaker id `id`, if any.
pub open spec fn voice_name_of(voices: Seq<(Seq<char>, u32)>, id: u32) -> Option<Seq<char>>
    decreases voices.len(),
{
    if voices.len() == 0 {
        None
    } else if voices[0].1 == id {
        Some(voices[0].0)
    } else {
        voice_name_of(voices.drop_first(), id)
    }
}

/// What a menu selection asks for: nothing unless it comes from the voice
/// menu and selects something; else the first selected value must be a
/// speaker id, and the selection is that id with the name of the first
/// offered voice that has it, or nothing where no voice has it.
pub open spec fn select_voice_spec(
    custom_id: Seq<char>,
    values: Seq<Seq<char>>,
    voices: Seq<(Seq<char>, u32)>,
) -> Result<Option<(u32, Seq<char>)>, IntErrorKind> {
    let prefix = VOICE_SELECT_MENU_CUSTOM_ID@;
    if !(custom_id.len() >= prefix.len() && custom_id.take(prefix.len() as int) == prefix) {
        Ok(None)
    } else if values.len() == 0 {
        Ok(None)
    } else {
        match parse_unsigned_spec(values[0], u32::MAX as nat) {
            Err(e) => Err(e),
            Ok(n) => match voice_name_of(voices, n as u32) {
                Some(name) => Ok(Some((n as u32, name))),
                None => Ok(None),
            },
        }
    }
}

/// Reads a selection from the voice menu: the chosen speaker id and the
/// name of its voice.
#[verifier::loop_isolation(false)]
pub fn select_voice(custom_id: &str, values: &Vec<String>, voices: &Vec<(String, u32)>) -> (res: Result<
    Option<(u32, String)>,
    IntErrorKind,
>)
    ensures
        match select_voice_spec(custom_id@, values@.map_values(|s: String| s@), voice_views(voices@)) {
            Ok(None) => res matches Ok(None),
            Ok(Some((id, name))) => res matches Ok(Some((i, n))) && i == id && n@ == name,
            Err(e) => res == Err::<Option<(u32, String)>, IntErrorKind>(e),
        },
{
    let cid = chars_of(custom_id);
    let prefix = chars_of(VOICE_SELECT_MENU_CUSTOM_ID);
    if !matches_at(&cid, 0, &prefix) {
        assert(cid@.skip(0) =~= cid@);
        return Ok(None);
    }
    assert(cid@.skip(0) =~= cid@);
    if values.len() == 0 {
        return Ok(None);
    }
    assert(values@.map_values(|s: String| s@)[0] == values@[0]@);
    let first = chars_of(values[0].as_str());
    let n = match parse_unsigned(&first, 4294967295u64) {
        Ok(n) => n as u32,
        Err(e) => return Err(e),
    };
    let ghost vs = voice_views(voices@);
    let mut i: usize = 0;
    assert(vs.skip(0) =~= vs);
    while i < voices.len()
        invariant
            i <= voices@.len(),
            vs == voice_views(voices@),
            voice_name_of(vs, n) == voice_name_of(vs.skip(i as int), n),
        decreases voices@.len() - i,
    {
        assert(vs.skip(i as int)[0] == vs[i as int]);
        assert(vs.skip(i as int).drop_first() =~= vs.skip(i + 1));
        assert(vs[i as int] == (voices@[i as int].0@, voices@[i as int].1));
        if voices[i].1 == n {
            let name = voices[i].0.clone();
            assert(voice_name_of(vs.skip(i as int), n) == Some(voices@[i as int].0@));
            return Ok(Some((n, name)));
        }
        i = i + 1;
    }
    assert(vs.skip(i as int) =~= Seq::<(Seq<char>, u32)>::empty());
    Ok(None)
}

/// How many voices the voice menu offers at most.
pub const VOICE_MENU_LIMIT: usize = 20;

/// The options of the voice menu: the first twenty voices, each as (label,
/// value) with the speaker id written in decimal as the value.
pub fn voice_menu_options(voices: &Vec<(String, u32)>) -> (res: Vec<(String, String)>)
    ensures
        res@.len() == if voices@.len() < VOICE_MENU_LIMIT { voices@.len() } else { VOICE_MENU_LIMIT as nat },
        forall|i: int| 0 <= i < res@.len() ==> (#[trigger] res@[i]).0@ == voices@[i].0@
            && res@[i].1@ == decimal_spec(voices@[i].1 as nat),
{
    let mut out: Vec<(String, String)> = Vec::new();
    let mut i: usize = 0;
    while i < voices.len() && i < VOICE_MENU_LIMIT
        invariant
            i <= voices@.len(),
            i <= VOICE_MENU_LIMIT,
            out@.len() == i,
            forall|j: int| 0 <= j < i ==> (#[trigger] out@[j]).0@ == voices@[j].0@
                && out@[j].1@ == decimal_spec(voices@[j].1 as nat),
        decreases voices@.len() - i,
    {
        let digits = decimal_chars(voices[i].1 as u64);
        out.push((voices[i].0.clone(), string_of(&digits)));
        i = i + 1;
    }
    out
}

} // verus!
