//! The monotonic counter that hands out short codes.

use vstd::prelude::*;

use crate::codec::{decode, encode, lemma_decode_encode, to_short_code};

verus! {

/// Where the counter starts before the links already stored are added.
pub const COUNTER_BASE: u64 = 100000000000;

/// Why the counter could not produce a value.
#[derive(Debug, Clone, Copy, PartialEq, Eq, Structural)]
pub enum CounterError {
    /// The counter has reached the largest `u64`.
    Exhausted,
}

/// A counter that only ever moves up; each step yields the short code of
/// the new value.
#[derive(Debug)]
pub struct Counter {
    value: u64,
}

impl View for Counter {
    type V = nat;

    closed spec fn view(&self) -> nat {
        self.value as nat
    }
}

impl Counter {
    /// A counter whose current value is `start`; the first code it hands out
    /// is that of `start + 1`.
    pub fn new(start: u64) -> (r: Counter)
        ensures
            r@ == start,
    {
        Counter { value: start }
    }

    /// A counter seeded from the number of links already stored: it starts
    /// at `COUNTER_BASE + row_count`.
    pub fn seeded(row_count: u64) -> (r: Result<Counter, CounterError>)
        ensures
            COUNTER_BASE + row_count <= u64::MAX ==> (r matches Ok(c) && c@ == COUNTER_BASE
                + row_count),
            COUNTER_BASE + row_count > u64::MAX ==> r == Err::<Counter, _>(CounterError::Exhausted),
    {
        if row_count > u64::MAX - COUNTER_BASE {
            Err(CounterError::Exhausted)
        } else {
            Ok(Counter { value: COUNTER_BASE + row_count })
        }
    }

    /// The value always fits in a `u64`.
    pub proof fn lemma_view_bound(&self)
        ensures
            self@ <= u64::MAX,
    {
    }

    /// The current value.
    pub fn value(&self) -> (r: u64)
        ensures
            r == self@,
    {
        self.value
    }

    /// Moves the counter up by one and returns the short code of the new
    /// value. At the largest `u64` the counter stays and an error comes back.
    pub fn increment(&mut self) -> (r: Result<String, CounterError>)
        ensures
            old(self)@ < u64::MAX ==> final(self)@ == old(self)@ + 1 && (r matches Ok(code)
                && code@ == encode(final(self)@)),
            old(self)@ >= u64::MAX ==> final(self)@ == old(self)@ && r == Err::<String, _>(
                CounterError::Exhausted,
            ),
    {
        if self.value == u64::MAX {
            return Err(CounterError::Exhausted);
        }
        self.value = self.value + 1;
        Ok(to_short_code(self.value))
    }
}

/// A counter that starts at or above `COUNTER_BASE` only hands out codes of
/// positive values: each code is non-empty and decodes to the value it was
/// made from, so the value zero (the empty code) never occurs.
pub proof fn lemma_seeded_codes_positive(v: nat)
    requires
        v >= COUNTER_BASE,
    ensures
        v + 1 > 0,
        encode(v + 1).len() > 0,
        decode(encode(v + 1)) == v + 1,
{
    lemma_decode_encode(v + 1);
    if encode(v + 1).len() == 0 {
        assert(decode(encode(v + 1)) == 0);
    }
}

} // verus!
