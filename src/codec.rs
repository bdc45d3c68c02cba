//! Short codes: a counter value written in base 64 over a URL-safe alphabet.
//!
//! The alphabet is `0-9`, `A-Z`, `a-z`, `-`, `_`, in that order. A value is
//! written most significant digit first, without leading zeros; zero is the
//! empty code.

use vstd::arithmetic::div_mod::{lemma_div_is_ordered, lemma_fundamental_div_mod};
use vstd::prelude::*;

verus! {

/// The symbol of digit `i` (`0 <= i < 64`).
pub open spec fn symbol(i: int) -> char {
    if i < 10 {
        (48 + i) as u32 as char
    } else if i < 36 {
        (55 + i) as u32 as char
    } else if i < 62 {
        (61 + i) as u32 as char
    } else if i == 62 {
        '-'
    } else {
        '_'
    }
}

/// The digit that a symbol stands for, or -1 for a character outside the alphabet.
pub open spec fn digit_of(c: char) -> int {
    let u = c as u32 as int;
    if 48 <= u <= 57 {
        u - 48
    } else if 65 <= u <= 90 {
        u - 55
    } else if 97 <= u <= 122 {
        u - 61
    } else if c == '-' {
        62
    } else if c == '_' {
        63
    } else {
        -1
    }
}

/// The code of `n`.
pub open spec fn encode(n: nat) -> Seq<char>
    decreases n,
{
    if n == 0 {
        Seq::empty()
    } else {
        encode(n / 64).push(symbol((n % 64) as int))
    }
}

/// Every character of `s` is in the alphabet.
pub open spec fn is_code(s: Seq<char>) -> bool {
    forall|i: int| 0 <= i < s.len() ==> 0 <= #[trigger] digit_of(s[i]) < 64
}

/// The value that a code stands for.
pub open spec fn decode(s: Seq<char>) -> int
    decreases s.len(),
{
    if s.len() == 0 {
        0
    } else {
        decode(s.drop_last()) * 64 + digit_of(s.last())
    }
}

pub proof fn lemma_digit_of_symbol(i: int)
    requires
        0 <= i < 64,
    ensures
        digit_of(symbol(i)) == i,
{
}

/// Decoding a code gives back the value it was made from.
pub proof fn lemma_decode_encode(n: nat)
    ensures
        decode(encode(n)) == n,
        is_code(encode(n)),
    decreases n,
{
    if n > 0 {
        lemma_decode_encode(n / 64);
        lemma_fundamental_div_mod(n as int, 64);
        lemma_digit_of_symbol((n % 64) as int);
        let e = encode(n);
        assert(e.drop_last() == encode(n / 64));
        assert forall|i: int| 0 <= i < e.len() implies 0 <= #[trigger] digit_of(e[i]) < 64 by {
            if i < e.len() - 1 {
                assert(e[i] == encode(n / 64)[i]);
            }
        }
    }
}

/// Two different values never share a code.
pub proof fn lemma_encode_injective(a: nat, b: nat)
    requires
        a != b,
    ensures
        encode(a) != encode(b),
{
    lemma_decode_encode(a);
    lemma_decode_encode(b);
}

/// A larger value never has a shorter code.
pub proof fn lemma_encode_len_monotonic(a: nat, b: nat)
    requires
        a <= b,
    ensures
        encode(a).len() <= encode(b).len(),
    decreases b,
{
    if a > 0 {
        lemma_div_is_ordered(a as int, b as int, 64);
        lemma_encode_len_monotonic(a / 64, b / 64);
    }
}

/// Codes of a strictly increasing run of values are pairwise distinct, and
/// decoding them gives back the same strictly increasing run.
pub proof fn lemma_codes_distinct_and_ordered(vals: Seq<nat>)
    requires
        forall|i: int, j: int| 0 <= i < j < vals.len() ==> vals[i] < vals[j],
    ensures
        forall|i: int, j: int|
            0 <= i < j < vals.len() ==> encode(#[trigger] vals[i]) != encode(#[trigger] vals[j])
                && decode(encode(vals[i])) < decode(encode(vals[j])),
{
    assert forall|i: int, j: int| 0 <= i < j < vals.len() implies encode(#[trigger] vals[i])
        != encode(#[trigger] vals[j]) && decode(encode(vals[i])) < decode(encode(vals[j])) by {
        lemma_encode_injective(vals[i], vals[j]);
        lemma_decode_encode(vals[i]);
        lemma_decode_encode(vals[j]);
    }
}

/// The symbol of digit `i`.
pub fn symbol_at(i: u8) -> (c: char)
    requires
        i < 64,
    ensures
        c == symbol(i as int),
{
    if i < 10 {
        (48 + i) as char
    } else if i < 36 {
        (55 + i) as char
    } else if i < 62 {
        (61 + i) as char
    } else if i == 62 {
        '-'
    } else {
        '_'
    }
}

/// Relies on `String::insert` at index 0: the character is put before the others.
#[verifier::external_body]
fn prepend_char(s: &mut String, c: char)
    ensures
        final(s)@ == seq![c] + old(s)@,
{
    s.insert(0, c)
}

/// The short code of `n`: the low six bits pick a symbol, which is put in
/// front, and `n` is shifted right by six bits, until it reaches zero.
pub fn to_short_code(n: u64) -> (r: String)
    ensures
        r@ == encode(n as nat),
{
    let mut code = String::new();
    let mut num: u64 = n;
    while num > 0
        invariant
            encode(n as nat) == encode(num as nat) + code@,
        decreases num,
    {
        let c = symbol_at((num % 64) as u8);
        proof {
            assert(encode(num as nat) == encode((num / 64) as nat).push(c));
            assert(encode((num / 64) as nat) + (seq![c] + code@) =~= encode(num as nat) + code@);
        }
        prepend_char(&mut code, c);
        num = num / 64;
    }
    assert(code@ =~= encode(n as nat));
    code
}

/// The value of a short code: `None` where a character is outside the
/// alphabet or the value does not fit in a `u64`.
pub fn from_short_code(s: &str) -> (r: Option<u64>)
    ensures
        r == (if is_code(s@) && decode(s@) <= u64::MAX {
            Some(decode(s@) as u64)
        } else {
            None
        }),
{
    let len = s.unicode_len();
    let mut i: usize = 0;
    let mut acc: u64 = 0;
    while i < len
        invariant
            len == s@.len(),
            i <= len,
            is_code(s@.subrange(0, i as int)),
            acc == decode(s@.subrange(0, i as int)),
        decreases len - i,
    {
        let c = s.get_char(i);
        let d = digit_value(c);
        let ghost pre = s@.subrange(0, i as int);
        let ghost next = s@.subrange(0, i + 1);
        assert(next.drop_last() == pre);
        if d < 0 {
            proof {
                lemma_not_code_extends(s@, i as int);
            }
            return None;
        }
        if acc > (u64::MAX - d as u64) / 64 {
            proof {
                assert(next.last() == c);
                if is_code(s@) {
                    lemma_decode_grows(s@, i as int + 1);
                }
            }
            return None;
        }
        acc = acc * 64 + d as u64;
        i = i + 1;
    }
    assert(s@.subrange(0, len as int) =~= s@);
    Some(acc)
}

proof fn lemma_not_code_extends(s: Seq<char>, i: int)
    requires
        0 <= i < s.len(),
        !(0 <= digit_of(s[i]) < 64),
    ensures
        !is_code(s),
{
}

/// The value of a prefix of a code never exceeds the value of the code.
proof fn lemma_decode_grows(s: Seq<char>, k: int)
    requires
        0 <= k <= s.len(),
        is_code(s),
    ensures
        decode(s.subrange(0, k)) <= decode(s),
    decreases s.len() - k,
{
    if k < s.len() {
        lemma_decode_grows(s, k + 1);
        let next = s.subrange(0, k + 1);
        assert(next.drop_last() == s.subrange(0, k));
        assert(next.last() == s[k]);
        assert(is_code(s.subrange(0, k))) by {
            assert forall|i: int| 0 <= i < k implies 0 <= #[trigger] digit_of(
                s.subrange(0, k)[i],
            ) < 64 by {
                assert(s.subrange(0, k)[i] == s[i]);
            }
        }
        lemma_decode_nonneg(s.subrange(0, k));
        assert(0 <= digit_of(s[k]));
    } else {
        assert(s.subrange(0, k) =~= s);
    }
}

proof fn lemma_decode_nonneg(s: Seq<char>)
    requires
        is_code(s),
    ensures
        decode(s) >= 0,
    decreases s.len(),
{
    if s.len() > 0 {
        assert(is_code(s.drop_last())) by {
            assert forall|i: int| 0 <= i < s.drop_last().len() implies 0 <= #[trigger] digit_of(
                s.drop_last()[i],
            ) < 64 by {
                assert(s.drop_last()[i] == s[i]);
            }
        }
        lemma_decode_nonneg(s.drop_last());
        assert(0 <= digit_of(s[s.len() - 1]));
    }
}

/// The digit of a character, or -1 outside the alphabet.
pub fn digit_value(c: char) -> (d: i8)
    ensures
        d == digit_of(c),
{
    let u = c as u32;
    if 48 <= u && u <= 57 {
        (u - 48) as i8
    } else if 65 <= u && u <= 90 {
        (u - 55) as i8
    } else if 97 <= u && u <= 122 {
        (u - 61) as i8
    } else if c == '-' {
        62
    } else if c == '_' {
        63
    } else {
        -1
    }
}

} // verus!
