//! Character-sequence utilities shared by the rest of the library.

use vstd::prelude::*;

verus! {

/// Appends one character to a string (`String::push`).
#[verifier::external_body]
pub(crate) fn push_char(s: &mut String, c: char)
    ensures
        final(s)@ == old(s)@.push(c),
{
    s.push(c);
}

/// The characters of a string slice, in order.
pub fn chars_of(s: &str) -> (res: Vec<char>)
    ensures
        res@ == s@,
{
    let mut v: Vec<char> = Vec::new();
    for c in it: s.chars()
        invariant
            v@ == it.seq().take(it.index() as int),
            it.seq() == s@,
    {
        v.push(c);
    }
    v
}

/// The string made of the given characters, in order.
pub fn string_of(cs: &Vec<char>) -> (res: String)
    ensures
        res@ == cs@,
{
    let mut s = String::new();
    let mut i: usize = 0;
    while i < cs.len()
        invariant
            i <= cs.len(),
            s@ == cs@.take(i as int),
        decreases cs.len() - i,
    {
        push_char(&mut s, cs[i]);
        i = i + 1;
        assert(cs@.take(i as int) =~= cs@.take(i - 1).push(cs@[i - 1]));
    }
    assert(cs@.take(cs.len() as int) =~= cs@);
    s
}


/// Appends the characters of `src` to `out`.
pub fn append_chars(out: &mut Vec<char>, src: &Vec<char>)
    ensures
        final(out)@ == old(out)@ + src@,
{
    let ghost start = out@;
    let mut i: usize = 0;
    while i < src.len()
        invariant
            i <= src.len(),
            out@ == start + src@.take(i as int),
        decreases src.len() - i,
    {
        out.push(src[i]);
        i = i + 1;
        assert(src@.take(i as int) =~= src@.take(i - 1).push(src@[i - 1]));
    }
    assert(src@.take(src.len() as int) =~= src@);
}

/// What `str::replace` gives: every non-overlapping occurrence of `from` in
/// `s`, found from the left, is replaced by `to`. An empty `from` matches
/// before every character and once more at the end.
pub open spec fn replace_spec(s: Seq<char>, from: Seq<char>, to: Seq<char>) -> Seq<char>
    decreases s.len(),
{
    if from.len() == 0 {
        if s.len() == 0 {
            to
        } else {
            to + seq![s[0]] + replace_spec(s.drop_first(), from, to)
        }
    } else if s.len() < from.len() {
        s
    } else if s.take(from.len() as int) == from {
        to + replace_spec(s.skip(from.len() as int), from, to)
    } else {
        seq![s[0]] + replace_spec(s.drop_first(), from, to)
    }
}

/// Whether `pat` occurs in `s` at position `i`.
pub fn matches_at(s: &Vec<char>, i: usize, pat: &Vec<char>) -> (res: bool)
    requires
        i <= s.len(),
    ensures
        res == (s@.len() - i >= pat@.len() && s@.skip(i as int).take(pat@.len() as int) == pat@),
{
    if s.len() - i < pat.len() {
        return false;
    }
    let mut j: usize = 0;
    while j < pat.len()
        invariant
            s.len() - i >= pat.len(),
            j <= pat.len(),
            forall|k: int| 0 <= k < j ==> s@[i + k] == pat@[k],
        decreases pat.len() - j,
    {
        if s[i + j] != pat[j] {
            assert(s@.skip(i as int).take(pat@.len() as int)[j as int] != pat@[j as int]);
            return false;
        }
        j = j + 1;
    }
    assert(s@.skip(i as int).take(pat@.len() as int) =~= pat@);
    true
}

/// Replaces every occurrence of `from` in `s` by `to`, as `str::replace` does.
pub fn replace_chars(s: &Vec<char>, from: &Vec<char>, to: &Vec<char>) -> (res: Vec<char>)
    ensures
        res@ == replace_spec(s@, from@, to@),
{
    let mut out: Vec<char> = Vec::new();
    let mut i: usize = 0;
    assert(s@.skip(0) =~= s@);
    while i < s.len()
        invariant
            i <= s.len(),
            out@ + replace_spec(s@.skip(i as int), from@, to@) == replace_spec(s@, from@, to@),
        decreases s.len() - i,
    {
        let ghost rest = s@.skip(i as int);
        if from.len() == 0 {
            let ghost before = out@;
            append_chars(&mut out, to);
            out.push(s[i]);
            assert(rest.drop_first() =~= s@.skip(i + 1));
            assert(out@ + replace_spec(s@.skip(i + 1), from@, to@) =~= before + replace_spec(rest, from@, to@));
            i = i + 1;
        } else if matches_at(s, i, from) {
            let ghost before = out@;
            append_chars(&mut out, to);
            assert(rest.skip(from@.len() as int) =~= s@.skip(i + from.len()));
            assert(out@ + replace_spec(s@.skip(i + from.len()), from@, to@) =~= before + replace_spec(rest, from@, to@));
            i = i + from.len();
        } else if s.len() - i < from.len() {
            let ghost before = out@;
            while i < s.len()
                invariant
                    i <= s.len(),
                    out@ + s@.skip(i as int) == before + rest,
                decreases s.len() - i,
            {
                assert(s@.skip(i as int) =~= seq![s@[i as int]] + s@.skip(i + 1));
                out.push(s[i]);
                i = i + 1;
            }
            assert(s@.skip(i as int) =~= Seq::<char>::empty());
            assert(out@ =~= out@ + s@.skip(i as int));
        } else {
            let ghost before = out@;
            out.push(s[i]);
            assert(rest.drop_first() =~= s@.skip(i + 1));
            assert(out@ + replace_spec(s@.skip(i + 1), from@, to@) =~= before + replace_spec(rest, from@, to@));
            i = i + 1;
        }
    }
    if from.len() == 0 {
        append_chars(&mut out, to);
    }
    proof {
        assert(s@.skip(i as int) =~= Seq::<char>::empty());
        if from.len() != 0 {
            assert(out@ =~= out@ + replace_spec(s@.skip(i as int), from@, to@));
        }
    }
    out
}


/// Why a decimal number could not be read, as `core::num::IntErrorKind`
/// reports it for unsigned integers.
#[derive(Clone, Copy, Debug, PartialEq, Eq)]
pub enum IntErrorKind {
    /// The text is empty.
    Empty,
    /// A character that is not an ASCII digit was met (a lone `+` counts).
    InvalidDigit,
    /// The number does not fit in the target type.
    PosOverflow,
}

/// The text `core::num::ParseIntError` shows for each kind.
pub open spec fn int_error_text_spec(kind: IntErrorKind) -> Seq<char> {
    match kind {
        IntErrorKind::Empty => "cannot parse integer from empty string"@,
        IntErrorKind::InvalidDigit => "invalid digit found in string"@,
        IntErrorKind::PosOverflow => "number too large to fit in target type"@,
    }
}

impl IntErrorKind {
    /// The text `core::num::ParseIntError` shows for this kind.
    pub fn description(&self) -> (res: &'static str)
        ensures
            res@ == int_error_text_spec(*self),
    {
        match self {
            IntErrorKind::Empty => "cannot parse integer from empty string",
            IntErrorKind::InvalidDigit => "invalid digit found in string",
            IntErrorKind::PosOverflow => "number too large to fit in target type",
        }
    }
}

pub open spec fn is_digit(c: char) -> bool {
    '0' <= c <= '9'
}

pub open spec fn digit_value(c: char) -> nat {
    (c as int - '0' as int) as nat
}

/// Reads the digits of `s` from the left onto `acc`, stopping at the first
/// character that is not a digit or at the first prefix whose value
/// exceeds `max`.
pub open spec fn scan_digits(s: Seq<char>, acc: nat, max: nat) -> Result<nat, IntErrorKind>
    decreases s.len(),
{
    if s.len() == 0 {
        Ok(acc)
    } else if !is_digit(s[0]) {
        Err(IntErrorKind::InvalidDigit)
    } else if acc * 10 + digit_value(s[0]) > max {
        Err(IntErrorKind::PosOverflow)
    } else {
        scan_digits(s.drop_first(), acc * 10 + digit_value(s[0]), max)
    }
}

/// What `str::parse` gives for an unsigned integer type whose largest
/// value is `max`: an optional leading `+`, then at least one ASCII digit.
pub open spec fn parse_unsigned_spec(s: Seq<char>, max: nat) -> Result<nat, IntErrorKind> {
    if s.len() == 0 {
        Err(IntErrorKind::Empty)
    } else if s.len() == 1 && s[0] == '+' {
        Err(IntErrorKind::InvalidDigit)
    } else if s[0] == '+' {
        scan_digits(s.drop_first(), 0, max)
    } else {
        scan_digits(s, 0, max)
    }
}

/// Reads an unsigned decimal number no larger than `max`, as `str::parse`
/// does for `u8` through `u64` and `usize`.
pub fn parse_unsigned(s: &Vec<char>, max: u64) -> (res: Result<u64, IntErrorKind>)
    ensures
        match res {
            Ok(v) => parse_unsigned_spec(s@, max as nat) == Ok::<nat, IntErrorKind>(v as nat),
            Err(e) => parse_unsigned_spec(s@, max as nat) == Err::<nat, IntErrorKind>(e),
        },
        res matches Ok(v) ==> v <= max,
{
    if s.len() == 0 {
        return Err(IntErrorKind::Empty);
    }
    if s.len() == 1 && s[0] == '+' {
        return Err(IntErrorKind::InvalidDigit);
    }
    let start: usize = if s[0] == '+' { 1 } else { 0 };
    let ghost digits = s@.skip(start as int);
    assert(start == 1 ==> digits =~= s@.drop_first());
    assert(start == 0 ==> digits =~= s@);
    let mut acc: u64 = 0;
    let mut i: usize = start;
    while i < s.len()
        invariant
            start <= i <= s.len(),
            acc <= max,
            digits == s@.skip(start as int),
            parse_unsigned_spec(s@, max as nat) == scan_digits(digits, 0, max as nat),
            scan_digits(digits, 0, max as nat) == scan_digits(s@.skip(i as int), acc as nat, max as nat),
        decreases s.len() - i,
    {
        let c = s[i];
        assert(s@.skip(i as int)[0] == c);
        assert(s@.skip(i as int).drop_first() =~= s@.skip(i + 1));
        if !(c >= '0' && c <= '9') {
            return Err(IntErrorKind::InvalidDigit);
        }
        let d: u64 = (c as u32 - '0' as u32) as u64;
        assert(d as nat == digit_value(c));
        let next: u128 = (acc as u128) * 10 + (d as u128);
        if next > max as u128 {
            return Err(IntErrorKind::PosOverflow);
        }
        acc = next as u64;
        i = i + 1;
    }
    assert(s@.skip(i as int) =~= Seq::<char>::empty());
    Ok(acc)
}

/// The ASCII digit for `d`, which is below ten.
pub open spec fn digit_char(d: nat) -> char {
    (d + '0' as int) as char
}

/// The decimal digits of `n`, most significant first, with no leading zero.
pub open spec fn decimal_spec(n: nat) -> Seq<char>
    decreases n,
{
    if n < 10 {
        seq![digit_char(n)]
    } else {
        decimal_spec(n / 10).push(digit_char(n % 10))
    }
}

/// The decimal digits of `n`, as `format!("{}", n)` writes them.
pub fn decimal_chars(n: u64) -> (res: Vec<char>)
    ensures
        res@ == decimal_spec(n as nat),
    decreases n,
{
    let d: u8 = (n % 10) as u8;
    let c: char = (d + 48u8) as char;
    assert(c == digit_char((n % 10) as nat));
    if n < 10 {
        let mut v: Vec<char> = Vec::new();
        v.push(c);
        v
    } else {
        let mut v = decimal_chars(n / 10);
        v.push(c);
        v
    }
}

proof fn lemma_scan_push(s: Seq<char>, c: char, acc: nat, max: nat, v: nat)
    requires
        scan_digits(s, acc, max) == Ok::<nat, IntErrorKind>(v),
        is_digit(c),
        v * 10 + digit_value(c) <= max,
    ensures
        scan_digits(s.push(c), acc, max) == Ok::<nat, IntErrorKind>(v * 10 + digit_value(c)),
    decreases s.len(),
{
    if s.len() == 0 {
        assert(s.push(c).drop_first() =~= Seq::<char>::empty());
        assert(s.push(c)[0] == c);
        assert(scan_digits(Seq::<char>::empty(), acc * 10 + digit_value(c), max)
            == Ok::<nat, IntErrorKind>(acc * 10 + digit_value(c)));
    } else {
        assert(s.push(c).drop_first() =~= s.drop_first().push(c));
        assert(s.push(c)[0] == s[0]);
        lemma_scan_push(s.drop_first(), c, acc * 10 + digit_value(s[0]), max, v);
    }
}

proof fn lemma_decimal_scans(n: nat, max: nat)
    requires
        n <= max,
    ensures
        scan_digits(decimal_spec(n), 0, max) == Ok::<nat, IntErrorKind>(n),
        decimal_spec(n).len() > 0,
        decimal_spec(n)[0] != '+',
        forall|i: int| 0 <= i < decimal_spec(n).len() ==> is_digit(#[trigger] decimal_spec(n)[i]),
    decreases n,
{
    if n < 10 {
        assert(digit_value(digit_char(n)) == n);
        assert(seq![digit_char(n)].drop_first() =~= Seq::<char>::empty());
        assert(scan_digits(Seq::<char>::empty(), n, max) == Ok::<nat, IntErrorKind>(n));
    } else {
        let q = n / 10;
        let r = n % 10;
        assert(q * 10 + r == n) by (nonlinear_arith)
            requires q == n / 10, r == n % 10;
        assert(q <= n) by (nonlinear_arith)
            requires q == n / 10, n >= 10;
        lemma_decimal_scans(q, max);
        assert(digit_value(digit_char(r)) == r);
        lemma_scan_push(decimal_spec(q), digit_char(r), 0, max, q);
    }
}

proof fn lemma_scan_bounded(s: Seq<char>, acc: nat, max: nat)
    requires
        acc <= max,
    ensures
        scan_digits(s, acc, max) matches Ok(v) ==> v <= max,
    decreases s.len(),
{
    if s.len() > 0 && is_digit(s[0]) && acc * 10 + digit_value(s[0]) <= max {
        lemma_scan_bounded(s.drop_first(), acc * 10 + digit_value(s[0]), max);
    }
}

/// A number read with largest value `max` is at most `max`.
pub proof fn lemma_parse_bounded(s: Seq<char>, max: nat)
    ensures
        parse_unsigned_spec(s, max) matches Ok(v) ==> v <= max,
{
    lemma_scan_bounded(s, 0, max);
    if s.len() > 0 {
        lemma_scan_bounded(s.drop_first(), 0, max);
    }
}

/// Reading back the decimal digits of a number gives the number.
pub proof fn lemma_parse_decimal(n: nat, max: nat)
    requires
        n <= max,
    ensures
        parse_unsigned_spec(decimal_spec(n), max) == Ok::<nat, IntErrorKind>(n),
{
    lemma_decimal_scans(n, max);
}

} // verus!
