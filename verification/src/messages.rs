//! Spoken message templates and the voice configuration that holds them.

use vstd::prelude::*;
use crate::text::{
    IntErrorKind, parse_unsigned, parse_unsigned_spec, decimal_chars, decimal_spec, chars_of,
    string_of, lemma_parse_decimal, int_error_text_spec,
};

verus! {

/// One piece of a message template: literal text, or the argument at an index.
#[derive(Debug)]
pub enum MessageFormat {
    Text(String),
    Arg(usize),
}

/// The abstract value of a template piece.
pub ghost enum MessagePart {
    Text(Seq<char>),
    Arg(nat),
}

impl View for MessageFormat {
    type V = MessagePart;

    open spec fn view(&self) -> MessagePart {
        match self {
            MessageFormat::Text(s) => MessagePart::Text(s@),
            MessageFormat::Arg(n) => MessagePart::Arg(*n as nat),
        }
    }
}

/// Why a template piece or a template could not be read from its
/// configuration text.
#[derive(Debug, Clone, Copy, PartialEq, Eq)]
pub enum MessageError {
    /// A `{..}` piece whose inside is not a number.
    InvalidNumber(IntErrorKind),
    /// An argument index not below the number of arguments, which is given.
    ArgOutOfRange(usize),
}

/// The text shown for a template that could not be read.
pub open spec fn message_error_text_spec(e: MessageError) -> Seq<char> {
    match e {
        MessageError::InvalidNumber(k) => "please set number: "@ + int_error_text_spec(k),
        MessageError::ArgOutOfRange(n) => "please set number between 0 and "@ + decimal_spec(n as nat)
            + " exclusive"@,
    }
}

impl MessageError {
    /// The text shown for this error: "please set number: " and the integer
    /// error, or "please set number between 0 and N exclusive".
    pub fn text(&self) -> (res: String)
        ensures
            res@ == message_error_text_spec(*self),
    {
        match self {
            MessageError::InvalidNumber(k) => {
                let mut s = String::from_str("please set number: ");
                s.append(k.description());
                s
            },
            MessageError::ArgOutOfRange(n) => {
                let digits = decimal_chars(*n as u64);
                let num = string_of(&digits);
                let mut s = String::from_str("please set number between 0 and ");
                s.append(num.as_str());
                s.append(" exclusive");
                s
            },
        }
    }
}

/// What a configuration string reads as: `{n}` is the argument `n`,
/// anything else is literal text. A string that starts with `{` and ends
/// with `}` (so it has at least two characters) must hold a number.
pub open spec fn parse_part_spec(v: Seq<char>) -> Result<MessagePart, MessageError> {
    if v.len() >= 2 && v[0] == '{' && v[v.len() - 1] == '}' {
        match parse_unsigned_spec(v.subrange(1, v.len() - 1), usize::MAX as nat) {
            Ok(n) => Ok(MessagePart::Arg(n)),
            Err(e) => Err(MessageError::InvalidNumber(e)),
        }
    } else {
        Ok(MessagePart::Text(v))
    }
}

/// The configuration string written for a template piece.
pub open spec fn part_config_text(p: MessagePart) -> Seq<char> {
    match p {
        MessagePart::Text(s) => s,
        MessagePart::Arg(n) => seq!['{'] + decimal_spec(n) + seq!['}'],
    }
}

/// Literal text that would read back as something else: it starts with `{`
/// and ends with `}`.
pub open spec fn is_braced(s: Seq<char>) -> bool {
    s.len() >= 2 && s[0] == '{' && s[s.len() - 1] == '}'
}

/// A piece that its configuration string reads back to.
pub open spec fn part_round_trips(p: MessagePart) -> bool {
    match p {
        MessagePart::Text(s) => !is_braced(s),
        MessagePart::Arg(n) => n <= usize::MAX,
    }
}

impl MessageFormat {
    /// Reads a template piece from its configuration string.
    pub fn parse(v: &str) -> (res: Result<MessageFormat, MessageError>)
        ensures
            match res {
                Ok(f) => parse_part_spec(v@) == Ok::<MessagePart, MessageError>(f@),
                Err(e) => parse_part_spec(v@) == Err::<MessagePart, MessageError>(e),
            },
    {
        let cs = chars_of(v);
        let len = cs.len();
        if len >= 2 && cs[0] == '{' && cs[len - 1] == '}' {
            let mut inner: Vec<char> = Vec::new();
            let mut i: usize = 1;
            while i < len - 1
                invariant
                    cs@ == v@,
                    len == cs@.len(),
                    len >= 2,
                    1 <= i <= len - 1,
                    inner@ == cs@.subrange(1, i as int),
                decreases len - 1 - i,
            {
                inner.push(cs[i]);
                i = i + 1;
                assert(inner@ =~= cs@.subrange(1, i as int));
            }
            match parse_unsigned(&inner, usize::MAX as u64) {
                Ok(n) => Ok(MessageFormat::Arg(n as usize)),
                Err(e) => Err(MessageError::InvalidNumber(e)),
            }
        } else {
            Ok(MessageFormat::Text(string_of(&cs)))
        }
    }

    /// The configuration string for this piece: the text itself, or `{n}`.
    pub fn to_config_string(&self) -> (res: String)
        ensures
            res@ == part_config_text(self@),
    {
        match self {
            MessageFormat::Text(s) => s.clone(),
            MessageFormat::Arg(n) => {
                let mut cs: Vec<char> = Vec::new();
                cs.push('{');
                let digits = decimal_chars(*n as u64);
                let mut i: usize = 0;
                while i < digits.len()
                    invariant
                        i <= digits.len(),
                        cs@ == seq!['{'] + digits@.take(i as int),
                    decreases digits.len() - i,
                {
                    cs.push(digits[i]);
                    i = i + 1;
                    assert(cs@ =~= seq!['{'] + digits@.take(i as int));
                }
                cs.push('}');
                assert(digits@.take(digits@.len() as int) =~= digits@);
                string_of(&cs)
            },
        }
    }
}

/// Reading back the configuration string of a piece gives the piece,
/// unless it is literal text that looks like `{..}`.
pub proof fn lemma_part_round_trip(p: MessagePart)
    requires
        part_round_trips(p),
    ensures
        parse_part_spec(part_config_text(p)) == Ok::<MessagePart, MessageError>(p),
{
    match p {
        MessagePart::Text(s) => {},
        MessagePart::Arg(n) => {
            let t = part_config_text(p);
            lemma_parse_decimal(n, usize::MAX as nat);
            assert(t.subrange(1, t.len() - 1) =~= decimal_spec(n));
        },
    }
}


/// The text a piece stands for, given the arguments.
pub open spec fn part_text(p: MessagePart, args: Seq<Seq<char>>) -> Seq<char> {
    match p {
        MessagePart::Text(s) => s,
        MessagePart::Arg(n) => args[n as int],
    }
}

/// The pieces of a template written out one after the other, each argument
/// piece replaced by its argument.
pub open spec fn render(parts: Seq<MessagePart>, args: Seq<Seq<char>>) -> Seq<char>
    decreases parts.len(),
{
    if parts.len() == 0 {
        Seq::empty()
    } else {
        render(parts.drop_last(), args) + part_text(parts.last(), args)
    }
}

/// Every argument piece of `parts` names one of `n` arguments.
pub open spec fn args_below(parts: Seq<MessagePart>, n: nat) -> bool {
    forall|i: int| 0 <= i < parts.len() ==> (#[trigger] parts[i] matches MessagePart::Arg(k) ==> k < n)
}

/// The views of a list of strings.
pub open spec fn str_views(args: Seq<&str>) -> Seq<Seq<char>> {
    args.map_values(|a: &str| a@)
}

/// A message template that takes exactly `N` arguments: every argument
/// piece names an index below `N`.
#[derive(Debug)]
pub struct ConstMessage<const N: usize>(Vec<MessageFormat>);

impl<const N: usize> View for ConstMessage<N> {
    type V = Seq<MessagePart>;

    closed spec fn view(&self) -> Seq<MessagePart> {
        self.0@.map_values(|f: MessageFormat| f@)
    }
}

impl<const N: usize> ConstMessage<N> {
    #[verifier::type_invariant]
    closed spec fn wf(self) -> bool {
        args_below(self@, N as nat)
    }

    fn from_valid(formats: Vec<MessageFormat>) -> (res: Self)
        requires
            args_below(formats@.map_values(|f: MessageFormat| f@), N as nat),
        ensures
            res@ == formats@.map_values(|f: MessageFormat| f@),
    {
        ConstMessage(formats)
    }

    /// The template holds these pieces, if every argument piece is below `N`.
    pub fn new(formats: Vec<MessageFormat>) -> (res: Result<Self, MessageError>)
        ensures
            match res {
                Ok(m) => m@ == formats@.map_values(|f: MessageFormat| f@) && args_below(m@, N as nat),
                Err(e) => e == MessageError::ArgOutOfRange(N) && !args_below(
                    formats@.map_values(|f: MessageFormat| f@),
                    N as nat,
                ),
            },
    {
        let ghost parts = formats@.map_values(|f: MessageFormat| f@);
        let mut i: usize = 0;
        while i < formats.len()
            invariant
                i <= formats.len(),
                parts == formats@.map_values(|f: MessageFormat| f@),
                forall|j: int| 0 <= j < i ==> (#[trigger] parts[j] matches MessagePart::Arg(k) ==> k < N),
            decreases formats.len() - i,
        {
            if let MessageFormat::Arg(n) = &formats[i] {
                if *n >= N {
                    assert(parts[i as int] == formats@[i as int]@);
                    return Err(MessageError::ArgOutOfRange(N));
                }
            }
            i = i + 1;
        }
        Ok(ConstMessage(formats))
    }

    /// Writes the template out with its argument pieces replaced by `args`.
    pub fn format(&self, args: &[&str; N]) -> (res: String)
        ensures
            res@ == render(self@, str_views(args@)),
    {
        proof { use_type_invariant(self); }
        let mut text = String::new();
        let mut i: usize = 0;
        while i < self.0.len()
            invariant
                i <= self.0@.len(),
                args_below(self@, N as nat),
                args@.len() == N,
                self@ == self.0@.map_values(|f: MessageFormat| f@),
                text@ == render(self@.take(i as int), str_views(args@)),
            decreases self.0@.len() - i,
        {
            assert(self@.take(i + 1).drop_last() =~= self@.take(i as int));
            assert(self@[i as int] == self.0@[i as int]@);
            match &self.0[i] {
                MessageFormat::Text(s) => {
                    text.append(s.as_str());
                },
                MessageFormat::Arg(n) => {
                    assert(self@[i as int] matches MessagePart::Arg(k) ==> k < N);
                    text.append(args[*n]);
                },
            }
            i = i + 1;
        }
        assert(self@.take(self.0@.len() as int) =~= self@);
        text
    }

    /// The text of each piece, in order, with argument pieces replaced by
    /// `args`: what is spoken, one piece at a time.
    pub fn segments(&self, args: &[&str; N]) -> (res: Vec<String>)
        ensures
            res@.len() == self@.len(),
            forall|i: int| 0 <= i < res@.len() ==> #[trigger] res@[i]@ == part_text(self@[i], str_views(args@)),
    {
        proof { use_type_invariant(self); }
        let mut out: Vec<String> = Vec::new();
        let mut i: usize = 0;
        while i < self.0.len()
            invariant
                i <= self.0@.len(),
                args_below(self@, N as nat),
                args@.len() == N,
                self@ == self.0@.map_values(|f: MessageFormat| f@),
                out@.len() == i,
                forall|j: int| 0 <= j < i ==> #[trigger] out@[j]@ == part_text(self@[j], str_views(args@)),
            decreases self.0@.len() - i,
        {
            assert(self@[i as int] == self.0@[i as int]@);
            match &self.0[i] {
                MessageFormat::Text(s) => {
                    out.push(s.clone());
                },
                MessageFormat::Arg(n) => {
                    assert(self@[i as int] matches MessagePart::Arg(k) ==> k < N);
                    out.push(String::from_str(args[*n]));
                },
            }
            i = i + 1;
        }
        out
    }

    /// Reads a template from its configuration strings: each string is read
    /// as a piece, in order, and the first that fails gives the error; then
    /// every argument piece must be below `N`.
    pub fn from_config_strings(strs: &Vec<String>) -> (res: Result<Self, MessageError>)
        ensures
            match parse_parts_spec(string_views(strs@)) {
                Ok(parts) => if args_below(parts, N as nat) {
                    res matches Ok(m) && m@ == parts
                } else {
                    res == Err::<Self, MessageError>(MessageError::ArgOutOfRange(N))
                },
                Err(e) => res == Err::<Self, MessageError>(e),
            },
    {
        let ghost views = string_views(strs@);
        let mut formats: Vec<MessageFormat> = Vec::new();
        let mut i: usize = 0;
        assert(views.take(0) =~= Seq::<Seq<char>>::empty());
        assert(formats@.map_values(|f: MessageFormat| f@) =~= Seq::<MessagePart>::empty());
        while i < strs.len()
            invariant
                i <= strs@.len(),
                views == string_views(strs@),
                parse_parts_spec(views.take(i as int)) == Ok::<Seq<MessagePart>, MessageError>(
                    formats@.map_values(|f: MessageFormat| f@),
                ),
            decreases strs@.len() - i,
        {
            assert(views.take(i + 1).drop_last() =~= views.take(i as int));
            assert(views.take(i + 1).last() == strs@[i as int]@);
            let ghost before = formats@.map_values(|f: MessageFormat| f@);
            match MessageFormat::parse(strs[i].as_str()) {
                Ok(f) => {
                    formats.push(f);
                    assert(formats@.map_values(|f: MessageFormat| f@) =~= before.push(f@));
                },
                Err(e) => {
                    proof { lemma_parse_parts_prefix_error(views, i + 1, e); }
                    return Err(e);
                },
            }
            i = i + 1;
        }
        assert(views.take(strs@.len() as int) =~= views);
        ConstMessage::new(formats)
    }

    /// The configuration strings of the pieces, in order.
    pub fn to_config_strings(&self) -> (res: Vec<String>)
        ensures
            string_views(res@) == self@.map_values(|p: MessagePart| part_config_text(p)),
    {
        let mut out: Vec<String> = Vec::new();
        let mut i: usize = 0;
        while i < self.0.len()
            invariant
                i <= self.0@.len(),
                self@ == self.0@.map_values(|f: MessageFormat| f@),
                string_views(out@) == self@.take(i as int).map_values(|p: MessagePart| part_config_text(p)),
            decreases self.0@.len() - i,
        {
            let ghost before = string_views(out@);
            let s = self.0[i].to_config_string();
            out.push(s);
            assert(self@[i as int] == self.0@[i as int]@);
            assert(string_views(out@) =~= before.push(part_config_text(self@[i as int])));
            assert(self@.take(i + 1) =~= self@.take(i as int).push(self@[i as int]));
            assert(string_views(out@) =~= self@.take(i + 1).map_values(|p: MessagePart| part_config_text(p)));
            i = i + 1;
        }
        assert(self@.take(self.0@.len() as int) =~= self@);
        out
    }
}

/// The views of a list of strings.
pub open spec fn string_views(strs: Seq<String>) -> Seq<Seq<char>> {
    strs.map_values(|s: String| s@)
}

proof fn lemma_parse_parts_prefix_error(strs: Seq<Seq<char>>, k: int, e: MessageError)
    requires
        0 <= k <= strs.len(),
        parse_parts_spec(strs.take(k)) == Err::<Seq<MessagePart>, MessageError>(e),
    ensures
        parse_parts_spec(strs) == Err::<Seq<MessagePart>, MessageError>(e),
    decreases strs.len(),
{
    if k == strs.len() {
        assert(strs.take(k) =~= strs);
    } else {
        assert(strs.drop_last().take(k) =~= strs.take(k));
        lemma_parse_parts_prefix_error(strs.drop_last(), k, e);
    }
}

/// Reads configuration strings as template pieces, in order; the first
/// string that fails gives the error.
pub open spec fn parse_parts_spec(strs: Seq<Seq<char>>) -> Result<Seq<MessagePart>, MessageError>
    decreases strs.len(),
{
    if strs.len() == 0 {
        Ok(Seq::empty())
    } else {
        match parse_parts_spec(strs.drop_last()) {
            Ok(parts) => match parse_part_spec(strs.last()) {
                Ok(p) => Ok(parts.push(p)),
                Err(e) => Err(e),
            },
            Err(e) => Err(e),
        }
    }
}


/// Writing a template's pieces as configuration strings and reading them
/// back gives the same pieces, provided no literal piece looks like `{..}`.
pub proof fn lemma_message_round_trip(parts: Seq<MessagePart>)
    requires
        forall|i: int| 0 <= i < parts.len() ==> part_round_trips(#[trigger] parts[i]),
    ensures
        parse_parts_spec(parts.map_values(|p: MessagePart| part_config_text(p)))
            == Ok::<Seq<MessagePart>, MessageError>(parts),
    decreases parts.len(),
{
    let strs = parts.map_values(|p: MessagePart| part_config_text(p));
    if parts.len() == 0 {
        assert(strs =~= Seq::<Seq<char>>::empty());
        assert(parts =~= Seq::<MessagePart>::empty());
    } else {
        let init = parts.drop_last();
        lemma_message_round_trip(init);
        assert(strs.drop_last() =~= init.map_values(|p: MessagePart| part_config_text(p)));
        assert(part_round_trips(parts[parts.len() - 1]));
        lemma_part_round_trip(parts.last());
        assert(strs.last() == part_config_text(parts.last()));
        assert(init.push(parts.last()) =~= parts);
        assert(parse_parts_spec(strs.drop_last()) == Ok::<Seq<MessagePart>, MessageError>(init));
    }
}

/// What the bot says and how it says it.
#[derive(Debug)]
pub struct VoiceConfig {
    /// The speaker used for a user who has not chosen one.
    pub default_speaker_id: u32,
    /// Messages longer than this many characters are cut to this length.
    pub max_message_length: usize,
    /// Text meaning "the rest is omitted".
    pub overed_message: String,
    /// Spoken when a user joins; the argument is the user's name.
    pub join: ConstMessage<1>,
    /// Spoken when a user leaves; the argument is the user's name.
    pub leave: ConstMessage<1>,
}

/// The whole configuration of the bot.
#[derive(Debug)]
pub struct BotConfig {
    /// How many generated voices are kept for reuse.
    pub max_voice_cache: u64,
    pub voice: VoiceConfig,
}

/// The pieces of the default join message: the name, then "さんが参加しました".
pub open spec fn default_join_parts() -> Seq<MessagePart> {
    seq![MessagePart::Arg(0), MessagePart::Text("さんが参加しました"@)]
}

/// The pieces of the default leave message: the name, then "さんが退出しました".
pub open spec fn default_leave_parts() -> Seq<MessagePart> {
    seq![MessagePart::Arg(0), MessagePart::Text("さんが退出しました"@)]
}

impl VoiceConfig {
    /// The configuration used where the configuration file says nothing.
    pub fn gen_default_config() -> (res: VoiceConfig)
        ensures
            res.default_speaker_id == 2,
            res.max_message_length == 60,
            res.overed_message@ == "以下略"@,
            res.join@ == default_join_parts(),
            res.leave@ == default_leave_parts(),
    {
        let join = ConstMessage::<1>::from_valid(
            vec![MessageFormat::Arg(0), MessageFormat::Text(String::from_str("さんが参加しました"))],
        );
        let leave = ConstMessage::<1>::from_valid(
            vec![MessageFormat::Arg(0), MessageFormat::Text(String::from_str("さんが退出しました"))],
        );
        VoiceConfig {
            default_speaker_id: 2,
            max_message_length: 60,
            overed_message: String::from_str("以下略"),
            join,
            leave,
        }
    }
}

impl BotConfig {
    /// The configuration used where the configuration file says nothing.
    pub fn gen_default_config() -> (res: BotConfig)
        ensures
            res.max_voice_cache == 20,
            res.voice.default_speaker_id == 2,
            res.voice.max_message_length == 60,
            res.voice.overed_message@ == "以下略"@,
            res.voice.join@ == default_join_parts(),
            res.voice.leave@ == default_leave_parts(),
    {
        BotConfig { max_voice_cache: 20, voice: VoiceConfig::gen_default_config() }
    }
}

} // verus!
