//! Properties that hold across the operations of the library.

use vstd::prelude::*;
use crate::cache::{channel_of, reads_channel};
use crate::speaker::{speaker_of, guild_users};
use crate::text::replace_spec;
use crate::tts::truncate_spec;
use crate::messages::{MessagePart, render, part_text};
use crate::dictionary::{Entries, as_map, lookup, guild_entries, replace_all_spec};
use crate::events::{Event, VoiceState, voice_event_spec, in_channel};
use crate::voices::{
    voice_name_of, select_voice_spec, all_voices_spec, style_entries, VoiceCharacter, VoiceStyles,
    VOICE_SELECT_MENU_CUSTOM_ID,
};
use crate::text::{parse_unsigned_spec, lemma_parse_bounded};

verus! {

/// A channel is read in a guild exactly when it is the guild's channel.
pub proof fn law_has_eq_is_get(m: Map<u64, u64>, guild_id: u64, channel_id: u64)
    ensures
        reads_channel(m, guild_id, channel_id) <==> channel_of(m, guild_id) == Some(channel_id),
{
}

/// After a channel is set for a guild, it is that guild's channel, and no
/// other guild's channel changes.
pub proof fn law_tts_set_then_get(m: Map<u64, u64>, guild_id: u64, channel_id: u64, other: u64)
    requires
        other != guild_id,
    ensures
        channel_of(m.insert(guild_id, channel_id), guild_id) == Some(channel_id),
        channel_of(m.insert(guild_id, channel_id), other) == channel_of(m, other),
{
}

/// After a guild's channel is removed, the guild has none, and no other
/// guild's channel changes.
pub proof fn law_tts_remove_then_get(m: Map<u64, u64>, guild_id: u64, other: u64)
    requires
        other != guild_id,
    ensures
        channel_of(m.remove(guild_id), guild_id) == None::<u64>,
        channel_of(m.remove(guild_id), other) == channel_of(m, other),
{
}

/// After a user's speaker is set in a guild, that is the user's speaker
/// there, and every other (guild, user) keeps its speaker.
pub proof fn law_speaker_set_then_get(
    m: Map<u64, Map<u64, u32>>,
    guild_id: u64,
    user_id: u64,
    value: u32,
    g2: u64,
    u2: u64,
)
    requires
        g2 != guild_id || u2 != user_id,
    ensures
        ({
            let m2 = m.insert(guild_id, guild_users(m, guild_id).insert(user_id, value));
            &&& speaker_of(m2, guild_id, user_id) == Some(value)
            &&& speaker_of(m2, g2, u2) == speaker_of(m, g2, u2)
        }),
{
}

/// After a user's speaker is removed in a guild, the user has none there,
/// and every other (guild, user) keeps its speaker.
pub proof fn law_speaker_remove_then_get(
    m: Map<u64, Map<u64, u32>>,
    guild_id: u64,
    user_id: u64,
    g2: u64,
    u2: u64,
)
    requires
        g2 != guild_id || u2 != user_id,
    ensures
        ({
            let m2 = m.insert(guild_id, guild_users(m, guild_id).remove(user_id));
            &&& speaker_of(m2, guild_id, user_id) == None::<u32>
            &&& speaker_of(m2, g2, u2) == speaker_of(m, g2, u2)
        }),
{
}

/// Replacing a word by itself changes nothing.
pub proof fn law_replace_by_itself(s: Seq<char>, w: Seq<char>)
    ensures
        replace_spec(s, w, w) == s,
    decreases s.len(),
{
    if w.len() == 0 {
        if s.len() > 0 {
            law_replace_by_itself(s.drop_first(), w);
            assert(w + seq![s[0]] + s.drop_first() =~= s);
        }
    } else if s.len() >= w.len() {
        if s.take(w.len() as int) == w {
            law_replace_by_itself(s.skip(w.len() as int), w);
            assert(w + s.skip(w.len() as int) =~= s);
        } else {
            law_replace_by_itself(s.drop_first(), w);
            assert(seq![s[0]] + s.drop_first() =~= s);
        }
    }
}

/// `w` occurs in `s` at position `i`.
pub open spec fn occurs_at(s: Seq<char>, w: Seq<char>, i: int) -> bool {
    0 <= i && i + w.len() <= s.len() && s.subrange(i, i + w.len()) == w
}

/// A text in which a (non-empty) word does not occur is left as it is when
/// the word is replaced.
pub proof fn law_replace_absent(s: Seq<char>, w: Seq<char>, to: Seq<char>)
    requires
        w.len() > 0,
        forall|i: int| !occurs_at(s, w, i),
    ensures
        replace_spec(s, w, to) == s,
    decreases s.len(),
{
    if s.len() >= w.len() {
        assert(s.take(w.len() as int) =~= s.subrange(0, w.len() as int));
        assert(!occurs_at(s, w, 0));
        let rest = s.drop_first();
        assert forall|i: int| !occurs_at(rest, w, i) by {
            if occurs_at(rest, w, i) {
                assert(s.subrange(i + 1, i + 1 + w.len()) =~= rest.subrange(i, i + w.len()));
                assert(occurs_at(s, w, i + 1));
            }
        }
        law_replace_absent(rest, w, to);
        assert(seq![s[0]] + rest =~= s);
    }
}

/// A message cut for speech is never longer than the limit, and is a prefix
/// of the message.
pub proof fn law_truncate_bounded(s: Seq<char>, max: nat)
    ensures
        truncate_spec(s, max).len() <= max,
        truncate_spec(s, max) == s.take(truncate_spec(s, max).len() as int),
{
    assert(s.take(s.len() as int) =~= s);
}

/// The concatenation of a list of texts.
pub open spec fn concat(texts: Seq<Seq<char>>) -> Seq<char>
    decreases texts.len(),
{
    if texts.len() == 0 {
        Seq::empty()
    } else {
        concat(texts.drop_last()) + texts.last()
    }
}

/// A formatted message is its spoken pieces joined together: `format`
/// writes what `segments` speaks one piece at a time.
pub proof fn law_format_is_joined_segments(parts: Seq<MessagePart>, args: Seq<Seq<char>>)
    ensures
        render(parts, args) == concat(parts.map_values(|p: MessagePart| part_text(p, args))),
    decreases parts.len(),
{
    let texts = parts.map_values(|p: MessagePart| part_text(p, args));
    if parts.len() > 0 {
        law_format_is_joined_segments(parts.drop_last(), args);
        assert(texts.drop_last() =~= parts.drop_last().map_values(|p: MessagePart| part_text(p, args)));
    }
}


/// After a word's reading is set, the dictionary reads the word that way,
/// and every other word keeps its reading.
pub proof fn law_dictionary_set_then_get(old_es: Entries, new_es: Entries, k: Seq<char>, v: Seq<char>, other: Seq<char>)
    requires
        as_map(new_es) == as_map(old_es).insert(k, v),
        other != k,
    ensures
        lookup(new_es, k) == Some(v),
        lookup(new_es, other) == lookup(old_es, other),
{
    assert(as_map(new_es).contains_key(k));
    assert(as_map(new_es)[k] == v);
    assert(as_map(new_es)[k] == lookup(new_es, k)->Some_0);
    assert(as_map(new_es).contains_key(other) == as_map(old_es).contains_key(other));
    if lookup(old_es, other) is Some {
        assert(as_map(old_es).contains_key(other));
        assert(as_map(new_es)[other] == as_map(old_es)[other]);
    }
}

/// After a word is removed, the dictionary has no reading for it, and every
/// other word keeps its reading.
pub proof fn law_dictionary_remove_then_get(old_es: Entries, new_es: Entries, k: Seq<char>, other: Seq<char>)
    requires
        as_map(new_es) == as_map(old_es).remove(k),
        other != k,
    ensures
        lookup(new_es, k) is None,
        lookup(new_es, other) == lookup(old_es, other),
{
    assert(!as_map(new_es).contains_key(k));
    assert(as_map(new_es).contains_key(other) == as_map(old_es).contains_key(other));
    if lookup(old_es, other) is Some {
        assert(as_map(old_es).contains_key(other));
        assert(as_map(new_es)[other] == as_map(old_es)[other]);
    }
}

/// A join is always into the bot's channel from elsewhere, and a leave is
/// always out of the bot's channel to no channel; a member who stays where
/// they are causes neither.
pub proof fn law_voice_events(bot_channel: u64, old: Option<VoiceState>, new: VoiceState)
    ensures
        voice_event_spec(bot_channel, old, new) == Some(Event::Join) ==> new.channel_id == Some(bot_channel)
            && !in_channel(old, bot_channel),
        voice_event_spec(bot_channel, old, new) == Some(Event::Leave) ==> in_channel(old, bot_channel)
            && new.channel_id is None,
        (old matches Some(o) && o.channel_id == new.channel_id) ==> voice_event_spec(bot_channel, old, new)
            is None,
{
}

/// A selected voice is one of the offered voices, with the selected id.
pub proof fn law_selected_voice_is_offered(voices: Seq<(Seq<char>, u32)>, id: u32)
    ensures
        voice_name_of(voices, id) matches Some(name) ==> exists|i: int| 0 <= i < voices.len() && voices[i] == (
            name,
            id,
        ),
    decreases voices.len(),
{
    if voices.len() > 0 && voices[0].1 != id {
        law_selected_voice_is_offered(voices.drop_first(), id);
        if voice_name_of(voices, id) is Some {
            let name = voice_name_of(voices, id)->Some_0;
            let i = choose|i: int| 0 <= i < voices.drop_first().len() && voices.drop_first()[i] == (name, id);
            assert(voices[i + 1] == (name, id));
        }
    } else if voices.len() > 0 {
        assert(voices[0] == (voices[0].0, id));
    }
}


/// Changing one guild's dictionary leaves every other guild's dictionary, and
/// so how text is read there, as it was.
pub proof fn law_guild_dictionaries_independent(m: Map<u64, Entries>, guild_id: u64, e: Entries, other: u64, text: Seq<char>)
    requires
        other != guild_id,
    ensures
        guild_entries(m.insert(guild_id, e), other) == guild_entries(m, other),
        replace_all_spec(text, guild_entries(m.insert(guild_id, e), other)) == replace_all_spec(
            text,
            guild_entries(m, other),
        ),
{
}


/// A message longer than the limit is cut to exactly its first `max`
/// characters; a message within the limit is kept whole.
pub proof fn law_truncate_exact(s: Seq<char>, max: nat)
    ensures
        s.len() > max ==> truncate_spec(s, max).len() == max,
        s.len() <= max ==> truncate_spec(s, max) == s,
        forall|i: int| 0 <= i < truncate_spec(s, max).len() ==> #[trigger] truncate_spec(s, max)[i] == s[i],
{
}

/// A template without pieces writes nothing.
pub proof fn law_render_empty(args: Seq<Seq<char>>)
    ensures
        render(Seq::<MessagePart>::empty(), args) == Seq::<char>::empty(),
{
}

/// A literal piece at the end of a template adds its text, whole.
pub proof fn law_render_push_text(parts: Seq<MessagePart>, t: Seq<char>, args: Seq<Seq<char>>)
    ensures
        render(parts.push(MessagePart::Text(t)), args) == render(parts, args) + t,
{
    assert(parts.push(MessagePart::Text(t)).drop_last() =~= parts);
}

/// An argument piece at the end of a template adds its argument, whole,
/// whatever its length.
pub proof fn law_render_push_arg(parts: Seq<MessagePart>, n: nat, args: Seq<Seq<char>>)
    requires
        n < args.len(),
    ensures
        render(parts.push(MessagePart::Arg(n)), args) == render(parts, args) + args[n as int],
{
    assert(parts.push(MessagePart::Arg(n)).drop_last() =~= parts);
}

/// Adding an entry to a dictionary applies that entry, after all the others,
/// to the text the others give.
pub proof fn law_replace_all_push(text: Seq<char>, es: Entries, k: Seq<char>, v: Seq<char>)
    ensures
        replace_all_spec(text, es.push((k, v))) == replace_spec(replace_all_spec(text, es), k, v),
{
    assert(es.push((k, v)).drop_last() =~= es);
}

/// A dictionary of one entry reads a text as `str::replace` with that entry.
pub proof fn law_replace_all_single(text: Seq<char>, k: Seq<char>, v: Seq<char>)
    ensures
        replace_all_spec(text, seq![(k, v)]) == replace_spec(text, k, v),
{
    law_replace_all_push(text, Seq::empty(), k, v);
    assert(Seq::<(Seq<char>, Seq<char>)>::empty().push((k, v)) =~= seq![(k, v)]);
}

/// A text that starts with a (non-empty) word has that word replaced by the
/// reading, and the rest is replaced in the same way.
pub proof fn law_replace_leading(k: Seq<char>, rest: Seq<char>, v: Seq<char>)
    requires
        k.len() > 0,
    ensures
        replace_spec(k + rest, k, v) == v + replace_spec(rest, k, v),
{
    let s = k + rest;
    assert(s.take(k.len() as int) =~= k);
    assert(s.skip(k.len() as int) =~= rest);
}

/// A text that is exactly a (non-empty) word reads as the reading.
pub proof fn law_replace_whole_word(k: Seq<char>, v: Seq<char>)
    requires
        k.len() > 0,
    ensures
        replace_spec(k, k, v) == v,
{
    law_replace_leading(k, Seq::empty(), v);
    assert(k + Seq::<char>::empty() =~= k);
    assert(replace_spec(Seq::<char>::empty(), k, v) =~= Seq::<char>::empty());
    assert(v + Seq::<char>::empty() =~= v);
}

proof fn lemma_first_voice(voices: Seq<(Seq<char>, u32)>, id: u32, i: int)
    requires
        0 <= i < voices.len(),
        voices[i].1 == id,
        forall|j: int| 0 <= j < i ==> voices[j].1 != id,
    ensures
        voice_name_of(voices, id) == Some(voices[i].0),
    decreases voices.len(),
{
    if i > 0 {
        let rest = voices.drop_first();
        assert forall|j: int| 0 <= j < i - 1 implies rest[j].1 != id by {
            assert(rest[j] == voices[j + 1]);
        }
        lemma_first_voice(rest, id, i - 1);
    }
}

proof fn lemma_no_voice(voices: Seq<(Seq<char>, u32)>, id: u32)
    requires
        forall|j: int| 0 <= j < voices.len() ==> voices[j].1 != id,
    ensures
        voice_name_of(voices, id) is None,
    decreases voices.len(),
{
    if voices.len() > 0 {
        let rest = voices.drop_first();
        assert forall|j: int| 0 <= j < rest.len() implies rest[j].1 != id by {
            assert(rest[j] == voices[j + 1]);
        }
        lemma_no_voice(rest, id);
    }
}

/// The voice menu's selection of a speaker id that some offered voice has
/// chooses that id with the name of the first such voice in the whole list.
pub proof fn law_select_first_offered(
    custom_id: Seq<char>,
    values: Seq<Seq<char>>,
    voices: Seq<(Seq<char>, u32)>,
    n: nat,
    i: int,
)
    requires
        custom_id.len() >= VOICE_SELECT_MENU_CUSTOM_ID@.len(),
        custom_id.take(VOICE_SELECT_MENU_CUSTOM_ID@.len() as int) == VOICE_SELECT_MENU_CUSTOM_ID@,
        values.len() > 0,
        parse_unsigned_spec(values[0], u32::MAX as nat) == Ok::<nat, crate::text::IntErrorKind>(n),
        0 <= i < voices.len(),
        voices[i].1 == n,
        forall|j: int| 0 <= j < i ==> voices[j].1 != n,
    ensures
        select_voice_spec(custom_id, values, voices) == Ok::<
            Option<(u32, Seq<char>)>,
            crate::text::IntErrorKind,
        >(Some((n as u32, voices[i].0))),
{
    lemma_first_voice(voices, n as u32, i);
}

/// A selection of a speaker id that no offered voice has chooses nothing,
/// and so does a selection from another menu or of nothing.
pub proof fn law_select_nothing(
    custom_id: Seq<char>,
    values: Seq<Seq<char>>,
    voices: Seq<(Seq<char>, u32)>,
    n: nat,
)
    ensures
        !(custom_id.len() >= VOICE_SELECT_MENU_CUSTOM_ID@.len() && custom_id.take(
            VOICE_SELECT_MENU_CUSTOM_ID@.len() as int,
        ) == VOICE_SELECT_MENU_CUSTOM_ID@) ==> select_voice_spec(custom_id, values, voices) == Ok::<
            Option<(u32, Seq<char>)>,
            crate::text::IntErrorKind,
        >(None),
        values.len() == 0 ==> select_voice_spec(custom_id, values, voices) == Ok::<
            Option<(u32, Seq<char>)>,
            crate::text::IntErrorKind,
        >(None),
        (values.len() > 0 && parse_unsigned_spec(values[0], u32::MAX as nat) == Ok::<
            nat,
            crate::text::IntErrorKind,
        >(n) && forall|j: int| 0 <= j < voices.len() ==> voices[j].1 != n) ==> select_voice_spec(
            custom_id,
            values,
            voices,
        ) == Ok::<Option<(u32, Seq<char>)>, crate::text::IntErrorKind>(None),
{
    if values.len() > 0 && parse_unsigned_spec(values[0], u32::MAX as nat) == Ok::<
        nat,
        crate::text::IntErrorKind,
    >(n) && forall|j: int| 0 <= j < voices.len() ==> voices[j].1 != n {
        lemma_parse_bounded(values[0], u32::MAX as nat);
        lemma_no_voice(voices, n as u32);
    }
}

/// The offered name of a style of a character: "character-style".
pub open spec fn style_label(character: Seq<char>, style: VoiceStyles) -> (Seq<char>, u32) {
    (character + seq!['-'] + style.name@, style.id)
}

proof fn lemma_style_entries_complete(character: Seq<char>, styles: Seq<VoiceStyles>)
    ensures
        forall|j: int| 0 <= j < styles.len() && (#[trigger] styles[j]).kind is None
            ==> style_entries(character, styles).contains(style_label(character, styles[j])),
        forall|x: (Seq<char>, u32)| #[trigger] style_entries(character, styles).contains(x)
            ==> exists|j: int| 0 <= j < styles.len() && styles[j].kind is None
                && x == style_label(character, styles[j]),
    decreases styles.len(),
{
    if styles.len() > 0 {
        let init = styles.drop_last();
        lemma_style_entries_complete(character, init);
        let rest = style_entries(character, init);
        let last = styles.last();
        assert forall|j: int| 0 <= j < styles.len() && (#[trigger] styles[j]).kind is None
            implies style_entries(character, styles).contains(style_label(character, styles[j])) by {
            if j < styles.len() - 1 {
                assert(init[j] == styles[j]);
                assert(rest.contains(style_label(character, init[j])));
                let k = choose|k: int| 0 <= k < rest.len() && rest[k] == style_label(character, init[j]);
                if last.kind is None {
                    assert(rest.push(style_label(character, last))[k] == rest[k]);
                }
            } else {
                assert(rest.push(style_label(character, last))[rest.len() as int]
                    == style_label(character, last));
            }
        }
        assert forall|x: (Seq<char>, u32)| #[trigger] style_entries(character, styles).contains(x)
            implies exists|j: int| 0 <= j < styles.len() && styles[j].kind is None
                && x == style_label(character, styles[j]) by {
            let e = style_entries(character, styles);
            let k = choose|k: int| 0 <= k < e.len() && e[k] == x;
            if last.kind is None && k == rest.len() {
                assert(styles[styles.len() - 1] == last);
            } else {
                assert(e[k] == rest[k]);
                assert(rest.contains(x));
                let j = choose|j: int| 0 <= j < init.len() && init[j].kind is None
                    && x == style_label(character, init[j]);
                assert(styles[j] == init[j]);
            }
        }
    }
}

/// The offered voices are exactly the styles without a kind of all the
/// characters: every such style is offered as "character-style" with its id,
/// and nothing else is offered.
pub proof fn law_all_voices_complete(voices: Seq<VoiceCharacter>)
    ensures
        forall|k: int, j: int|
            0 <= k < voices.len() && 0 <= j < voices[k].styles@.len()
                && (#[trigger] voices[k].styles@[j]).kind is None
                ==> all_voices_spec(voices).contains(style_label(voices[k].name@, voices[k].styles@[j])),
        forall|x: (Seq<char>, u32)| #[trigger] all_voices_spec(voices).contains(x)
            ==> exists|k: int, j: int| 0 <= k < voices.len() && 0 <= j < voices[k].styles@.len()
                && voices[k].styles@[j].kind is None
                && x == style_label(voices[k].name@, voices[k].styles@[j]),
    decreases voices.len(),
{
    if voices.len() > 0 {
        let init = voices.drop_last();
        let c = voices.last();
        law_all_voices_complete(init);
        lemma_style_entries_complete(c.name@, c.styles@);
        let a = all_voices_spec(init);
        let b = style_entries(c.name@, c.styles@);
        assert(all_voices_spec(voices) == a + b);
        assert forall|k: int, j: int|
            0 <= k < voices.len() && 0 <= j < voices[k].styles@.len()
                && (#[trigger] voices[k].styles@[j]).kind is None
            implies all_voices_spec(voices).contains(style_label(voices[k].name@, voices[k].styles@[j])) by {
            let x = style_label(voices[k].name@, voices[k].styles@[j]);
            if k < voices.len() - 1 {
                assert(init[k] == voices[k]);
                assert(a.contains(x));
                let i = choose|i: int| 0 <= i < a.len() && a[i] == x;
                assert((a + b)[i] == x);
            } else {
                assert(voices[k] == c);
                assert(b.contains(x));
                let i = choose|i: int| 0 <= i < b.len() && b[i] == x;
                assert((a + b)[a.len() + i] == x);
            }
        }
        assert forall|x: (Seq<char>, u32)| #[trigger] all_voices_spec(voices).contains(x)
            implies exists|k: int, j: int| 0 <= k < voices.len() && 0 <= j < voices[k].styles@.len()
                && voices[k].styles@[j].kind is None
                && x == style_label(voices[k].name@, voices[k].styles@[j]) by {
            let i = choose|i: int| 0 <= i < (a + b).len() && (a + b)[i] == x;
            if i < a.len() {
                assert(a[i] == x);
                assert(a.contains(x));
                let (k, j) = choose|k: int, j: int| 0 <= k < init.len() && 0 <= j < init[k].styles@.len()
                    && init[k].styles@[j].kind is None
                    && x == style_label(init[k].name@, init[k].styles@[j]);
                assert(voices[k] == init[k]);
            } else {
                assert(b[i - a.len()] == x);
                assert(b.contains(x));
                let j = choose|j: int| 0 <= j < c.styles@.len() && c.styles@[j].kind is None
                    && x == style_label(c.name@, c.styles@[j]);
                assert(voices[voices.len() - 1] == c);
            }
        }
    }
}

} // verus!
