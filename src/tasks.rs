//! The decisions of the cleanup work items: which stored rows have expired.

use vstd::prelude::*;

verus! {

/// A stored row that may expire: its key and its expiry time, if any, in
/// seconds since the Unix epoch.
#[derive(Debug, Clone, PartialEq, Eq)]
pub struct ExpiryRow {
    pub key: String,
    pub expiry: Option<i64>,
}

/// A row has expired when it has an expiry time earlier than `now`.
pub open spec fn is_expired(expiry: Option<i64>, now: i64) -> bool {
    expiry matches Some(t) && t < now
}

/// The keys of the rows that pass `expired == want`, in their order.
pub open spec fn keys_where(rows: Seq<ExpiryRow>, now: i64, want: bool) -> Seq<Seq<char>>
    decreases rows.len(),
{
    if rows.len() == 0 {
        Seq::empty()
    } else {
        let prev = keys_where(rows.drop_last(), now, want);
        if is_expired(rows.last().expiry, now) == want {
            prev.push(rows.last().key@)
        } else {
            prev
        }
    }
}

pub open spec fn views(v: Seq<String>) -> Seq<Seq<char>> {
    v.map_values(|s: String| s@)
}

/// Splits the rows into the keys of those that have expired at `now` and
/// the keys of those that stay, each in the rows' order.
pub fn partition_expired(rows: &Vec<ExpiryRow>, now: i64) -> (r: (Vec<String>, Vec<String>))
    ensures
        views(r.0@) == keys_where(rows@, now, true),
        views(r.1@) == keys_where(rows@, now, false),
{
    let mut expired: Vec<String> = Vec::new();
    let mut kept: Vec<String> = Vec::new();
    let mut i: usize = 0;
    while i < rows.len()
        invariant
            i <= rows.len(),
            views(expired@) == keys_where(rows@.take(i as int), now, true),
            views(kept@) == keys_where(rows@.take(i as int), now, false),
        decreases rows.len() - i,
    {
        let row = &rows[i];
        let gone = match row.expiry {
            Some(t) => t < now,
            None => false,
        };
        assert(rows@.take(i + 1).drop_last() =~= rows@.take(i as int));
        assert(rows@.take(i + 1).last() == rows@[i as int]);
        if gone {
            expired.push(row.key.clone());
            assert(views(expired@) =~= keys_where(rows@.take(i + 1), now, true));
            assert(views(kept@) =~= keys_where(rows@.take(i + 1), now, false));
        } else {
            kept.push(row.key.clone());
            assert(views(kept@) =~= keys_where(rows@.take(i + 1), now, false));
            assert(views(expired@) =~= keys_where(rows@.take(i + 1), now, true));
        }
        i = i + 1;
    }
    assert(rows@.take(i as int) =~= rows@);
    (expired, kept)
}

/// Every row is either deleted or kept by a cleanup, never both and never
/// neither: the two counts add up to the number of rows.
pub proof fn lemma_cleanup_accounts_for_all(rows: Seq<ExpiryRow>, now: i64)
    ensures
        keys_where(rows, now, true).len() + keys_where(rows, now, false).len() == rows.len(),
    decreases rows.len(),
{
    if rows.len() > 0 {
        lemma_cleanup_accounts_for_all(rows.drop_last(), now);
    }
}

} // verus!
