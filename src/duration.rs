//! Human-readable durations such as `1h30m` or `2d`.
//!
//! A duration is a run of components, each a number of ASCII digits followed
//! by a unit word, with the units in the order year, month, week, day, hour,
//! minute, second, millisecond, microsecond, nanosecond, each at most once.
//! Unit words are matched without regard to case. A unit word is the whole
//! run of non-digits after the number; it belongs to the first unit, after
//! those already used, that accepts it. So while the minute is still open,
//! `ms` is read as minutes (the minute's `m` followed by `s`): `5ms` is five
//! minutes and `5ms3s` five minutes and three seconds; after the minute has
//! been used, `1m5ms` reads `ms` as milliseconds. The empty string is a zero
//! duration. A year counts 365 days and a month 30 days.

use vstd::arithmetic::div_mod::lemma_fundamental_div_mod;
use vstd::arithmetic::mul::{lemma_mul_inequality, lemma_mul_nonnegative};
use vstd::prelude::*;

verus! {

/// A span of time: whole seconds and the nanoseconds beyond them.
#[derive(Debug, Clone, Copy, PartialEq, Eq, Structural)]
pub struct TimeSpan {
    pub secs: u64,
    pub nanos: u32,
}

/// The span as a number of nanoseconds.
pub open spec fn span_nanos(t: TimeSpan) -> nat {
    t.secs as nat * 1000000000 + t.nanos as nat
}

impl TimeSpan {
    /// The span is in normal form.
    pub open spec fn wf(&self) -> bool {
        self.nanos < 1000000000
    }

    /// A span of whole seconds.
    pub fn from_secs(secs: u64) -> (r: TimeSpan)
        ensures
            r.wf(),
            r.secs == secs,
            r.nanos == 0,
    {
        TimeSpan { secs, nanos: 0 }
    }
}

/// Why a duration string was refused.
#[derive(Debug, Clone, Copy, PartialEq, Eq, Structural)]
pub enum DurationError {
    /// The text is not a run of components in the grammar.
    Malformed,
    /// A number, or the total, is beyond what the result can hold.
    TooLarge,
}

/// The number of units.
pub const UNIT_COUNT: u8 = 10;

/// How many nanoseconds one of unit `u` is.
pub open spec fn unit_nanos(u: nat) -> nat {
    if u == 0 {
        365 * 86400 * 1000000000
    } else if u == 1 {
        30 * 86400 * 1000000000
    } else if u == 2 {
        7 * 86400 * 1000000000
    } else if u == 3 {
        86400 * 1000000000
    } else if u == 4 {
        3600 * 1000000000
    } else if u == 5 {
        60 * 1000000000
    } else if u == 6 {
        1000000000
    } else if u == 7 {
        1000000
    } else if u == 8 {
        1000
    } else {
        1
    }
}

pub open spec fn is_ascii_digit(c: char) -> bool {
    '0' <= c <= '9'
}

/// The character that `c` is compared as: ASCII letters in lower case,
/// and the characters that Unicode case folding joins with `s`, `k` and the
/// micro sign.
pub open spec fn fold(c: char) -> char {
    if 'A' <= c <= 'Z' {
        ((c as u32) + 32) as char
    } else if c == '\u{17f}' {
        's'
    } else if c == '\u{212a}' {
        'k'
    } else if c == '\u{39c}' || c == '\u{3bc}' {
        '\u{b5}'
    } else {
        c
    }
}

pub open spec fn opt(present: bool, part: Seq<char>) -> Seq<char> {
    if present {
        part
    } else {
        Seq::empty()
    }
}

/// `base` followed by those of `o1`, `o2`, `o3` that are present.
pub open spec fn spelling(
    base: Seq<char>,
    o1: Seq<char>,
    o2: Seq<char>,
    o3: Seq<char>,
    b1: bool,
    b2: bool,
    b3: bool,
) -> Seq<char> {
    base + opt(b1, o1) + opt(b2, o2) + opt(b3, o3)
}

/// `w` is `base` followed by any of `o1`, `o2`, `o3`, in that order.
pub open spec fn spelled(
    w: Seq<char>,
    base: Seq<char>,
    o1: Seq<char>,
    o2: Seq<char>,
    o3: Seq<char>,
) -> bool {
    exists|b1: bool, b2: bool, b3: bool|
        w == #[trigger] spelling(base, o1, o2, o3, b1, b2, b3)
}

/// The folded word `w` names unit `u`.
pub open spec fn unit_word(u: nat, w: Seq<char>) -> bool {
    if u == 0 {
        spelled(w, seq!['y'], seq!['e', 'a'], seq!['r'], seq!['s'])
    } else if u == 1 {
        spelled(w, seq!['m', 'o', 'n'], seq!['t', 'h'], seq!['s'], Seq::empty())
    } else if u == 2 {
        spelled(w, seq!['w'], seq!['e', 'e'], seq!['k'], seq!['s'])
    } else if u == 3 {
        spelled(w, seq!['d'], seq!['a'], seq!['y'], seq!['s'])
    } else if u == 4 {
        spelled(w, seq!['h'], seq!['o', 'u'], seq!['r'], seq!['s'])
    } else if u == 5 {
        spelled(w, seq!['m'], seq!['i', 'n'], seq!['u', 't', 'e'], seq!['s'])
    } else if u == 6 {
        spelled(w, seq!['s'], seq!['e', 'c'], seq!['o', 'n', 'd'], seq!['s'])
    } else if u == 7 {
        w == seq!['m', 's'] || spelled(
            w,
            seq!['m', 'i', 'l', 'l', 'i'],
            seq!['s', 'e', 'c'],
            seq!['o', 'n', 'd'],
            seq!['s'],
        )
    } else if u == 8 {
        w == seq!['\u{b5}', 's'] || w == seq!['u', 's'] || spelled(
            w,
            seq!['m', 'i', 'c', 'r', 'o'],
            seq!['s', 'e', 'c'],
            seq!['o', 'n', 'd'],
            seq!['s'],
        )
    } else if u == 9 {
        w == seq!['n', 's'] || spelled(
            w,
            seq!['n', 'a', 'n', 'o'],
            seq!['s', 'e', 'c'],
            seq!['o', 'n', 'd'],
            seq!['s'],
        )
    } else {
        false
    }
}

/// The first unit from `u` on that the folded word names, or -1.
pub open spec fn first_unit(w: Seq<char>, u: nat) -> int
    decreases 10 - u,
{
    if u >= 10 {
        -1
    } else if unit_word(u, w) {
        u as int
    } else {
        first_unit(w, u + 1)
    }
}

/// The length of the run of ASCII digits at the start of `s`.
pub open spec fn digit_run(s: Seq<char>) -> nat
    decreases s.len(),
{
    if s.len() > 0 && is_ascii_digit(s[0]) {
        1 + digit_run(s.drop_first())
    } else {
        0
    }
}

/// The length of the run of non-digits at the start of `s`.
pub open spec fn word_run(s: Seq<char>) -> nat
    decreases s.len(),
{
    if s.len() > 0 && !is_ascii_digit(s[0]) {
        1 + word_run(s.drop_first())
    } else {
        0
    }
}

/// The value of a run of ASCII digits.
pub open spec fn digits_value(ds: Seq<char>) -> nat
    decreases ds.len(),
{
    if ds.len() == 0 {
        0
    } else {
        digits_value(ds.drop_last()) * 10 + (ds.last() as u32 - '0' as u32) as nat
    }
}

/// The components of `s`, as (unit, number) pairs, where the units still
/// open start at `from`; `None` where `s` is not in the grammar.
pub open spec fn components(s: Seq<char>, from: nat) -> Option<Seq<(nat, nat)>>
    decreases s.len(),
    via components_decreases
{
    if s.len() == 0 {
        Some(Seq::empty())
    } else {
        let d = digit_run(s);
        let rest = s.skip(d as int);
        let wl = word_run(rest);
        let u = first_unit(rest.take(wl as int).map_values(|c: char| fold(c)), from);
        if d == 0 || wl == 0 || u < 0 {
            None
        } else {
            match components(rest.skip(wl as int), (u + 1) as nat) {
                None => None,
                Some(c) => Some(seq![(u as nat, digits_value(s.take(d as int)))] + c),
            }
        }
    }
}

#[via_fn]
proof fn components_decreases(s: Seq<char>, from: nat) {
    if s.len() > 0 {
        lemma_digit_run_bound(s);
        let d = digit_run(s);
        lemma_word_run_bound(s.skip(d as int));
    }
}

proof fn lemma_digit_run_bound(s: Seq<char>)
    ensures
        digit_run(s) <= s.len(),
        forall|i: int| 0 <= i < digit_run(s) ==> is_ascii_digit(#[trigger] s[i]),
        digit_run(s) < s.len() ==> !is_ascii_digit(s[digit_run(s) as int]),
    decreases s.len(),
{
    if s.len() > 0 && is_ascii_digit(s[0]) {
        lemma_digit_run_bound(s.drop_first());
        assert forall|i: int| 0 <= i < digit_run(s) implies is_ascii_digit(#[trigger] s[i]) by {
            if i > 0 {
                assert(s[i] == s.drop_first()[i - 1]);
            }
        }
        if digit_run(s) < s.len() {
            assert(s[digit_run(s) as int] == s.drop_first()[digit_run(s.drop_first()) as int]);
        }
    }
}

proof fn lemma_word_run_bound(s: Seq<char>)
    ensures
        word_run(s) <= s.len(),
        forall|i: int| 0 <= i < word_run(s) ==> !is_ascii_digit(#[trigger] s[i]),
        word_run(s) < s.len() ==> is_ascii_digit(s[word_run(s) as int]),
    decreases s.len(),
{
    if s.len() > 0 && !is_ascii_digit(s[0]) {
        lemma_word_run_bound(s.drop_first());
        assert forall|i: int| 0 <= i < word_run(s) implies !is_ascii_digit(#[trigger] s[i]) by {
            if i > 0 {
                assert(s[i] == s.drop_first()[i - 1]);
            }
        }
        if word_run(s) < s.len() {
            assert(s[word_run(s) as int] == s.drop_first()[word_run(s.drop_first()) as int]);
        }
    }
}

/// The length of a duration's components, in nanoseconds.
pub open spec fn total_nanos(c: Seq<(nat, nat)>) -> nat
    decreases c.len(),
{
    if c.len() == 0 {
        0
    } else {
        total_nanos(c.drop_last()) + c.last().1 * unit_nanos(c.last().0)
    }
}

/// Every number of the components is at most `max`.
pub open spec fn numbers_within(c: Seq<(nat, nat)>, max: nat) -> bool {
    forall|i: int| 0 <= i < c.len() ==> (#[trigger] c[i]).1 <= max
}

/// What a parse with number bound `max` and total bound `limit` (in
/// nanoseconds) yields: the total, or the reason for refusal.
pub open spec fn parse_outcome(s: Seq<char>, max: nat, limit: nat) -> Result<nat, DurationError> {
    match components(s, 0) {
        None => Err(DurationError::Malformed),
        Some(c) => if numbers_within(c, max) && total_nanos(c) <= limit {
            Ok(total_nanos(c))
        } else {
            Err(DurationError::TooLarge)
        },
    }
}

/// The largest total a `std::time::Duration` holds, in nanoseconds.
pub open spec fn duration_limit() -> nat {
    u64::MAX as nat * 1000000000 + 999999999
}

/// The largest total a `chrono::TimeDelta` holds, in nanoseconds.
pub open spec fn time_delta_limit() -> nat {
    i64::MAX as nat * 1000000
}

/// The outcome of a parse, with the total in a `u128`.
pub open spec fn as_outcome(r: Result<u128, DurationError>) -> Result<nat, DurationError> {
    match r {
        Ok(t) => Ok(t as nat),
        Err(e) => Err(e),
    }
}

pub open spec fn prepend(done: Seq<(nat, nat)>, rest: Option<Seq<(nat, nat)>>) -> Option<
    Seq<(nat, nat)>,
> {
    match rest {
        None => None,
        Some(c) => Some(done + c),
    }
}

/// The character `c` is compared as.
pub fn fold_char(c: char) -> (r: char)
    ensures
        r == fold(c),
{
    if 'A' <= c && c <= 'Z' {
        ((c as u32 + 32) as u8) as char
    } else if c == '\u{17f}' {
        's'
    } else if c == '\u{212a}' {
        'k'
    } else if c == '\u{39c}' || c == '\u{3bc}' {
        '\u{b5}'
    } else {
        c
    }
}

fn push_all(dst: &mut Vec<char>, src: &Vec<char>)
    ensures
        final(dst)@ == old(dst)@ + src@,
{
    let mut i: usize = 0;
    while i < src.len()
        invariant
            i <= src.len(),
            dst@ == old(dst)@ + src@.take(i as int),
        decreases src.len() - i,
    {
        dst.push(src[i]);
        i = i + 1;
        assert(dst@ =~= old(dst)@ + src@.take(i as int));
    }
    assert(src@.take(i as int) =~= src@);
}

fn same_chars(a: &Vec<char>, b: &Vec<char>) -> (r: bool)
    ensures
        r == (a@ == b@),
{
    if a.len() != b.len() {
        return false;
    }
    let mut i: usize = 0;
    while i < a.len()
        invariant
            a.len() == b.len(),
            i <= a.len(),
            a@.take(i as int) == b@.take(i as int),
        decreases a.len() - i,
    {
        if a[i] != b[i] {
            return false;
        }
        i = i + 1;
        assert(a@.take(i as int) =~= b@.take(i as int)) by {
            assert(a@.take(i as int) =~= a@.take(i - 1).push(a@[i - 1]));
            assert(b@.take(i as int) =~= b@.take(i - 1).push(b@[i - 1]));
        }
    }
    assert(a@ =~= a@.take(i as int));
    assert(b@ =~= b@.take(i as int));
    true
}

fn is_spelling(
    w: &Vec<char>,
    base: &Vec<char>,
    o1: &Vec<char>,
    o2: &Vec<char>,
    o3: &Vec<char>,
    b1: bool,
    b2: bool,
    b3: bool,
) -> (r: bool)
    ensures
        r == (w@ == spelling(base@, o1@, o2@, o3@, b1, b2, b3)),
{
    let mut cand: Vec<char> = Vec::new();
    push_all(&mut cand, base);
    if b1 {
        push_all(&mut cand, o1);
    }
    if b2 {
        push_all(&mut cand, o2);
    }
    if b3 {
        push_all(&mut cand, o3);
    }
    assert(cand@ =~= spelling(base@, o1@, o2@, o3@, b1, b2, b3));
    same_chars(w, &cand)
}

fn is_spelled(w: &Vec<char>, base: &Vec<char>, o1: &Vec<char>, o2: &Vec<char>, o3: &Vec<char>) -> (r:
    bool)
    ensures
        r == spelled(w@, base@, o1@, o2@, o3@),
{
    let r = is_spelling(w, base, o1, o2, o3, false, false, false)
        || is_spelling(w, base, o1, o2, o3, false, false, true)
        || is_spelling(w, base, o1, o2, o3, false, true, false)
        || is_spelling(w, base, o1, o2, o3, false, true, true)
        || is_spelling(w, base, o1, o2, o3, true, false, false)
        || is_spelling(w, base, o1, o2, o3, true, false, true)
        || is_spelling(w, base, o1, o2, o3, true, true, false)
        || is_spelling(w, base, o1, o2, o3, true, true, true);
    proof {
        if spelled(w@, base@, o1@, o2@, o3@) {
            let (b1, b2, b3) = choose|b1: bool, b2: bool, b3: bool|
                w@ == #[trigger] spelling(base@, o1@, o2@, o3@, b1, b2, b3);
            assert(r) by {
                if b1 {
                    if b2 {
                        if b3 {} else {}
                    } else {
                        if b3 {} else {}
                    }
                } else {
                    if b2 {
                        if b3 {} else {}
                    } else {
                        if b3 {} else {}
                    }
                }
            }
        }
    }
    r
}

/// Whether the folded word `w` names unit `u`.
pub fn names_unit(u: u8, w: &Vec<char>) -> (r: bool)
    requires
        u < 10,
    ensures
        r == unit_word(u as nat, w@),
{
    let none: Vec<char> = Vec::new();
    let s = vec!['s'];
    let sec = vec!['s', 'e', 'c'];
    let ond = vec!['o', 'n', 'd'];
    assert(s@ =~= seq!['s']);
    assert(sec@ =~= seq!['s', 'e', 'c']);
    assert(ond@ =~= seq!['o', 'n', 'd']);
    if u == 0 {
        let (b, o1, o2) = (vec!['y'], vec!['e', 'a'], vec!['r']);
        assert(b@ =~= seq!['y'] && o1@ =~= seq!['e', 'a'] && o2@ =~= seq!['r']);
        is_spelled(w, &b, &o1, &o2, &s)
    } else if u == 1 {
        let (b, o1) = (vec!['m', 'o', 'n'], vec!['t', 'h']);
        assert(b@ =~= seq!['m', 'o', 'n'] && o1@ =~= seq!['t', 'h']);
        is_spelled(w, &b, &o1, &s, &none)
    } else if u == 2 {
        let (b, o1, o2) = (vec!['w'], vec!['e', 'e'], vec!['k']);
        assert(b@ =~= seq!['w'] && o1@ =~= seq!['e', 'e'] && o2@ =~= seq!['k']);
        is_spelled(w, &b, &o1, &o2, &s)
    } else if u == 3 {
        let (b, o1, o2) = (vec!['d'], vec!['a'], vec!['y']);
        assert(b@ =~= seq!['d'] && o1@ =~= seq!['a'] && o2@ =~= seq!['y']);
        is_spelled(w, &b, &o1, &o2, &s)
    } else if u == 4 {
        let (b, o1, o2) = (vec!['h'], vec!['o', 'u'], vec!['r']);
        assert(b@ =~= seq!['h'] && o1@ =~= seq!['o', 'u'] && o2@ =~= seq!['r']);
        is_spelled(w, &b, &o1, &o2, &s)
    } else if u == 5 {
        let (b, o1, o2) = (vec!['m'], vec!['i', 'n'], vec!['u', 't', 'e']);
        assert(b@ =~= seq!['m'] && o1@ =~= seq!['i', 'n'] && o2@ =~= seq!['u', 't', 'e']);
        is_spelled(w, &b, &o1, &o2, &s)
    } else if u == 6 {
        let o1 = vec!['e', 'c'];
        assert(o1@ =~= seq!['e', 'c']);
        is_spelled(w, &s, &o1, &ond, &s)
    } else if u == 7 {
        let (short, b) = (vec!['m', 's'], vec!['m', 'i', 'l', 'l', 'i']);
        assert(short@ =~= seq!['m', 's'] && b@ =~= seq!['m', 'i', 'l', 'l', 'i']);
        same_chars(w, &short) || is_spelled(w, &b, &sec, &ond, &s)
    } else if u == 8 {
        let (mu, us, b) = (vec!['\u{b5}', 's'], vec!['u', 's'], vec!['m', 'i', 'c', 'r', 'o']);
        assert(mu@ =~= seq!['\u{b5}', 's'] && us@ =~= seq!['u', 's'] && b@ =~= seq![
            'm',
            'i',
            'c',
            'r',
            'o',
        ]);
        same_chars(w, &mu) || same_chars(w, &us) || is_spelled(w, &b, &sec, &ond, &s)
    } else {
        let (short, b) = (vec!['n', 's'], vec!['n', 'a', 'n', 'o']);
        assert(short@ =~= seq!['n', 's'] && b@ =~= seq!['n', 'a', 'n', 'o']);
        same_chars(w, &short) || is_spelled(w, &b, &sec, &ond, &s)
    }
}

/// The first unit from `from` on that the folded word names, or -1.
pub fn find_unit(w: &Vec<char>, from: u8) -> (r: i8)
    requires
        from <= 10,
    ensures
        r == first_unit(w@, from as nat),
        r == -1 || (from <= r < 10),
{
    proof {
        lemma_first_unit_range(w@, from as nat);
    }
    let mut u: u8 = from;
    while u < UNIT_COUNT
        invariant
            from <= u <= 10,
            first_unit(w@, from as nat) == first_unit(w@, u as nat),
        decreases 10 - u,
    {
        if names_unit(u, w) {
            return u as i8;
        }
        u = u + 1;
    }
    -1
}

proof fn lemma_first_unit_range(w: Seq<char>, u: nat)
    ensures
        first_unit(w, u) == -1 || (u <= first_unit(w, u) < 10),
    decreases 10 - u,
{
    if u < 10 && !unit_word(u, w) {
        lemma_first_unit_range(w, u + 1);
    }
}

/// How many nanoseconds one of unit `u` is.
pub fn unit_length(u: u8) -> (r: u64)
    requires
        u < 10,
    ensures
        r == unit_nanos(u as nat),
{
    if u == 0 {
        365 * 86400 * 1000000000
    } else if u == 1 {
        30 * 86400 * 1000000000
    } else if u == 2 {
        7 * 86400 * 1000000000
    } else if u == 3 {
        86400 * 1000000000
    } else if u == 4 {
        3600 * 1000000000
    } else if u == 5 {
        60 * 1000000000
    } else if u == 6 {
        1000000000
    } else if u == 7 {
        1000000
    } else if u == 8 {
        1000
    } else {
        1
    }
}

proof fn lemma_run_is(t: Seq<char>, n: int, digits: bool)
    requires
        0 <= n <= t.len(),
        forall|k: int| 0 <= k < n ==> is_ascii_digit(#[trigger] t[k]) == digits,
        n < t.len() ==> is_ascii_digit(t[n]) != digits,
    ensures
        digits ==> digit_run(t) == n,
        !digits ==> word_run(t) == n,
    decreases n,
{
    if n > 0 {
        assert forall|k: int| 0 <= k < n - 1 implies is_ascii_digit(
            #[trigger] t.drop_first()[k],
        ) == digits by {
            assert(t.drop_first()[k] == t[k + 1]);
        }
        if n < t.len() {
            assert(t.drop_first()[n - 1] == t[n]);
        }
        lemma_run_is(t.drop_first(), n - 1, digits);
    } else if t.len() > 0 {
        assert(is_ascii_digit(t[0]) != digits);
    }
}

proof fn lemma_total_grows(c: Seq<(nat, nat)>, x: (nat, nat))
    ensures
        total_nanos(c.push(x)) == total_nanos(c) + x.1 * unit_nanos(x.0),
        total_nanos(c.push(x)) >= total_nanos(c),
{
    assert(c.push(x).drop_last() == c);
    lemma_mul_nonnegative(x.1 as int, unit_nanos(x.0) as int);
}

proof fn lemma_within_push(c: Seq<(nat, nat)>, x: (nat, nat), max: nat)
    ensures
        numbers_within(c.push(x), max) == (numbers_within(c, max) && x.1 <= max),
{
    if numbers_within(c.push(x), max) {
        assert forall|i: int| 0 <= i < c.len() implies (#[trigger] c[i]).1 <= max by {
            assert(c.push(x)[i] == c[i]);
        }
        assert(c.push(x)[c.len() as int] == x);
    }
    if numbers_within(c, max) && x.1 <= max {
        assert forall|i: int| 0 <= i < c.push(x).len() implies (#[trigger] c.push(x)[i]).1
            <= max by {
            if i < c.len() {
                assert(c.push(x)[i] == c[i]);
            }
        }
    }
}

proof fn lemma_step_bound(value: int, unit: int)
    requires
        0 <= value <= u64::MAX,
        0 <= unit <= 365 * 86400 * 1000000000,
    ensures
        value * unit <= u64::MAX * (365 * 86400 * 1000000000),
{
    lemma_mul_inequality(value, u64::MAX as int, unit);
    lemma_mul_inequality(unit, (365 * 86400 * 1000000000) as int, u64::MAX as int);
}

/// Parses `s` with the given bounds: numbers at most `max`, a total of at
/// most `limit` nanoseconds.
pub fn parse_total(s: &str, max: u64, limit: u128) -> (r: Result<u128, DurationError>)
    requires
        limit <= duration_limit(),
    ensures
        as_outcome(r) == parse_outcome(s@, max as nat, limit as nat),
{
    let len = s.unicode_len();
    let mut i: usize = 0;
    let mut from: u8 = 0;
    let mut total: u128 = 0;
    let mut too_large = false;
    let ghost mut done: Seq<(nat, nat)> = Seq::empty();
    assert(s@.skip(0) =~= s@);
    assert(limit <= 18446744073709551615999999999u128);
    while i < len
        invariant
            len == s@.len(),
            i <= len,
            from <= 10,
            limit <= 18446744073709551615999999999u128,
            components(s@, 0) == prepend(done, components(s@.skip(i as int), from as nat)),
            !too_large ==> total == total_nanos(done) && numbers_within(done, max as nat) && total
                <= limit,
            too_large ==> !(numbers_within(done, max as nat) && total_nanos(done) <= limit),
        decreases len - i,
    {
        let ghost t = s@.skip(i as int);
        // The number.
        let mut j: usize = i;
        let mut value: u64 = 0;
        let mut overflow = false;
        while j < len && is_digit_char(s.get_char(j))
            invariant
                len == s@.len(),
                i <= j <= len,
                forall|k: int| i <= k < j ==> is_ascii_digit(#[trigger] s@[k]),
                !overflow ==> value == digits_value(s@.subrange(i as int, j as int)) && value
                    <= max,
                overflow ==> digits_value(s@.subrange(i as int, j as int)) > max,
            decreases len - j,
        {
            let c = s.get_char(j);
            let d = (c as u32 - 48) as u64;
            let ghost prev = s@.subrange(i as int, j as int);
            let ghost next = s@.subrange(i as int, j + 1);
            assert(next.drop_last() == prev);
            assert(next.last() == c);
            if !overflow {
                if d > max || value > (max - d) / 10 {
                    overflow = true;
                } else {
                    value = value * 10 + d;
                }
            }
            j = j + 1;
        }
        let ghost d_len = (j - i) as int;
        proof {
            assert forall|k: int| 0 <= k < d_len implies is_ascii_digit(#[trigger] t[k]) == true by {
                assert(t[k] == s@[i + k]);
            }
            if j < len {
                assert(t[d_len] == s@[j as int]);
            }
            lemma_run_is(t, d_len, true);
            assert(t.take(d_len) =~= s@.subrange(i as int, j as int));
        }
        // The unit word.
        let mut k: usize = j;
        let mut word: Vec<char> = Vec::new();
        while k < len && !is_digit_char(s.get_char(k))
            invariant
                len == s@.len(),
                j <= k <= len,
                forall|m: int| j <= m < k ==> !is_ascii_digit(#[trigger] s@[m]),
                word@ == s@.subrange(j as int, k as int).map_values(|c: char| fold(c)),
            decreases len - k,
        {
            let c = s.get_char(k);
            word.push(fold_char(c));
            k = k + 1;
            assert(word@ =~= s@.subrange(j as int, k as int).map_values(|c: char| fold(c)));
        }
        let ghost rest = t.skip(d_len);
        let ghost w_len = (k - j) as int;
        proof {
            assert forall|m: int| 0 <= m < w_len implies is_ascii_digit(#[trigger] rest[m])
                == false by {
                assert(rest[m] == s@[j + m]);
            }
            if k < len {
                assert(rest[w_len] == s@[k as int]);
            }
            lemma_run_is(rest, w_len, false);
            assert(rest.take(w_len) =~= s@.subrange(j as int, k as int));
            assert(rest.skip(w_len) =~= s@.skip(k as int));
        }
        let u = find_unit(&word, from);
        if j == i || k == j || u < 0 {
            return Err(DurationError::Malformed);
        }
        let ghost x: (nat, nat) = (u as nat, digits_value(t.take(d_len)));
        proof {
            assert(prepend(done, prepend(seq![x], components(s@.skip(k as int), (u + 1) as nat)))
                == prepend(done.push(x), components(s@.skip(k as int), (u + 1) as nat))) by {
                match components(s@.skip(k as int), (u + 1) as nat) {
                    None => {},
                    Some(c) => {
                        assert(done + (seq![x] + c) =~= done.push(x) + c);
                    },
                }
            }
            lemma_total_grows(done, x);
            lemma_within_push(done, x, max as nat);
        }
        if !too_large {
            if overflow {
                too_large = true;
            } else {
                let unit = unit_length(u as u8);
                proof {
                    lemma_step_bound(value as int, unit as int);
                }
                let step: u128 = value as u128 * unit as u128;
                assert(total <= 18446744073709551615999999999u128);
                assert(step <= 581747252760646226262848000000000000u128);
                if total + step > limit {
                    too_large = true;
                } else {
                    total = total + step;
                }
            }
        }
        proof {
            done = done.push(x);
        }
        i = k;
        from = (u + 1) as u8;
    }
    assert(s@.skip(len as int) =~= Seq::<char>::empty());
    assert(done + Seq::<(nat, nat)>::empty() =~= done);
    if too_large {
        Err(DurationError::TooLarge)
    } else {
        Ok(total)
    }
}

/// Whether `c` is an ASCII digit.
pub fn is_digit_char(c: char) -> (r: bool)
    ensures
        r == is_ascii_digit(c),
{
    '0' <= c && c <= '9'
}

/// The span of a total that fits: whole seconds and the remainder.
fn span_of(n: u128) -> (t: TimeSpan)
    requires
        n <= duration_limit(),
    ensures
        t.wf(),
        span_nanos(t) == n,
{
    proof {
        lemma_fundamental_div_mod(n as int, 1000000000);
    }
    let secs = (n / 1000000000) as u64;
    let nanos = (n % 1000000000) as u32;
    TimeSpan { secs, nanos }
}

/// Parses a duration such as `1h30m` or `2d`, with each number and the
/// total within what a `std::time::Duration` holds.
pub fn parse_duration(s: &str) -> (r: Result<TimeSpan, DurationError>)
    ensures
        match parse_outcome(s@, u64::MAX as nat, duration_limit()) {
            Ok(n) => (r matches Ok(t) && t.wf() && span_nanos(t) == n),
            Err(e) => r == Err::<TimeSpan, DurationError>(e),
        },
{
    match parse_total(s, u64::MAX, 18446744073709551615999999999u128) {
        Ok(n) => Ok(span_of(n)),
        Err(e) => Err(e),
    }
}

/// Parses a duration such as `1h30m` or `2d`, with each number within an
/// `i64` and the total within what a `chrono::TimeDelta` holds.
pub fn parse_time_delta(s: &str) -> (r: Result<TimeSpan, DurationError>)
    ensures
        match parse_outcome(s@, i64::MAX as nat, time_delta_limit()) {
            Ok(n) => (r matches Ok(t) && t.wf() && span_nanos(t) == n),
            Err(e) => r == Err::<TimeSpan, DurationError>(e),
        },
{
    match parse_total(s, i64::MAX as u64, 9223372036854775807000000u128) {
        Ok(n) => Ok(span_of(n)),
        Err(e) => Err(e),
    }
}

} // verus!
