//! The redirect cache: a bounded map from short code to target URL that
//! evicts the least recently used entry, kept in an `lru::LruCache`.
//!
//! Its contents are modelled as a sequence of `(key, value)` pairs, most
//! recently used first.

use lru::LruCache;
use vstd::prelude::*;

verus! {

/// The number of entries the redirect cache holds unless told otherwise.
pub const DEFAULT_CACHE_CAPACITY: usize = 1000;

#[verifier::external_type_specification]
#[verifier::external_body]
#[verifier::reject_recursive_types(K)]
#[verifier::reject_recursive_types(V)]
#[verifier::reject_recursive_types(S)]
pub struct ExLruCache<K, V, S>(LruCache<K, V, S>);

#[verifier::external_type_specification]
#[verifier::external_body]
pub struct ExDefaultHasher(lru::DefaultHasher);

/// The entries of an `LruCache`, most recently used first.
pub uninterp spec fn lru_entries(c: LruCache<String, String>) -> Seq<(Seq<char>, Seq<char>)>;

/// The capacity an `LruCache` was made with.
pub uninterp spec fn lru_capacity(c: LruCache<String, String>) -> nat;

/// Some entry has key `k`.
pub open spec fn has_key(e: Seq<(Seq<char>, Seq<char>)>, k: Seq<char>) -> bool {
    exists|i: int| 0 <= i < e.len() && (#[trigger] e[i]).0 == k
}

/// The position of the entry with key `k`, where there is one.
pub open spec fn key_at(e: Seq<(Seq<char>, Seq<char>)>, k: Seq<char>) -> int {
    choose|i: int| 0 <= i < e.len() && (#[trigger] e[i]).0 == k
}

/// No key occurs twice.
pub open spec fn keys_unique(e: Seq<(Seq<char>, Seq<char>)>) -> bool {
    forall|i: int, j: int| 0 <= i < j < e.len() ==> (#[trigger] e[i]).0 != (#[trigger] e[j]).0
}

/// The entries after a `put` of `(k, v)` into a cache of capacity `cap`:
/// an entry with that key is replaced; otherwise, when the cache is full,
/// the least recently used entry goes. Either way the new entry is the most
/// recently used.
pub open spec fn put_entries(
    e: Seq<(Seq<char>, Seq<char>)>,
    cap: nat,
    k: Seq<char>,
    v: Seq<char>,
) -> Seq<(Seq<char>, Seq<char>)> {
    if has_key(e, k) {
        seq![(k, v)] + e.remove(key_at(e, k))
    } else if e.len() >= cap {
        seq![(k, v)] + e.drop_last()
    } else {
        seq![(k, v)] + e
    }
}

/// The entries after a lookup of `k`: a hit becomes the most recently used.
pub open spec fn get_entries(e: Seq<(Seq<char>, Seq<char>)>, k: Seq<char>) -> Seq<
    (Seq<char>, Seq<char>),
> {
    if has_key(e, k) {
        seq![e[key_at(e, k)]] + e.remove(key_at(e, k))
    } else {
        e
    }
}

/// The entries after removing key `k`.
pub open spec fn pop_entries(e: Seq<(Seq<char>, Seq<char>)>, k: Seq<char>) -> Seq<
    (Seq<char>, Seq<char>),
> {
    if has_key(e, k) {
        e.remove(key_at(e, k))
    } else {
        e
    }
}

/// Relies on `LruCache::new`: a new cache is empty and holds at most `cap` entries.
#[verifier::external_body]
fn lru_new(cap: usize) -> (r: LruCache<String, String>)
    requires
        cap > 0,
    ensures
        lru_entries(r) == Seq::<(Seq<char>, Seq<char>)>::empty(),
        lru_capacity(r) == cap,
{
    LruCache::new(std::num::NonZeroUsize::new(cap).unwrap())
}

/// Relies on `LruCache::put`: an entry with an equal key gets the new value
/// and its old value comes back; otherwise a full cache first drops its least
/// recently used entry. The entry put is then the most recently used.
#[verifier::external_body]
fn lru_put(c: &mut LruCache<String, String>, k: String, v: String) -> (r: Option<String>)
    ensures
        lru_capacity(*final(c)) == lru_capacity(*old(c)),
        lru_entries(*final(c)) == put_entries(
            lru_entries(*old(c)),
            lru_capacity(*old(c)),
            k@,
            v@,
        ),
        has_key(lru_entries(*old(c)), k@) ==> (r matches Some(x) && x@ == lru_entries(
            *old(c),
        )[key_at(lru_entries(*old(c)), k@)].1),
        !has_key(lru_entries(*old(c)), k@) ==> r is None,
{
    c.put(k, v)
}

/// Relies on `LruCache::get`: a hit moves the entry to the most recently
/// used place and its value is cloned out; a miss changes nothing.
#[verifier::external_body]
fn lru_get(c: &mut LruCache<String, String>, k: &str) -> (r: Option<String>)
    ensures
        lru_capacity(*final(c)) == lru_capacity(*old(c)),
        lru_entries(*final(c)) == get_entries(lru_entries(*old(c)), k@),
        has_key(lru_entries(*old(c)), k@) ==> (r matches Some(x) && x@ == lru_entries(
            *old(c),
        )[key_at(lru_entries(*old(c)), k@)].1),
        !has_key(lru_entries(*old(c)), k@) ==> r is None,
{
    c.get(k).cloned()
}

/// Relies on `LruCache::pop_entry`: the entry with the key is taken out and
/// handed back.
#[verifier::external_body]
fn lru_pop_entry(c: &mut LruCache<String, String>, k: &str) -> (r: Option<(String, String)>)
    ensures
        lru_capacity(*final(c)) == lru_capacity(*old(c)),
        lru_entries(*final(c)) == pop_entries(lru_entries(*old(c)), k@),
        has_key(lru_entries(*old(c)), k@) ==> (r matches Some(x) && x.0@ == lru_entries(
            *old(c),
        )[key_at(lru_entries(*old(c)), k@)].0 && x.1@ == lru_entries(*old(c))[key_at(
            lru_entries(*old(c)),
            k@,
        )].1),
        !has_key(lru_entries(*old(c)), k@) ==> r is None,
{
    c.pop_entry(k)
}

/// Relies on `LruCache::len`: the number of entries.
#[verifier::external_body]
fn lru_len(c: &LruCache<String, String>) -> (r: usize)
    ensures
        r == lru_entries(*c).len(),
{
    c.len()
}

/// A bounded cache from short code to URL with least-recently-used eviction.
pub struct LinkCache {
    inner: LruCache<String, String>,
}

impl View for LinkCache {
    type V = Seq<(Seq<char>, Seq<char>)>;

    closed spec fn view(&self) -> Seq<(Seq<char>, Seq<char>)> {
        lru_entries(self.inner)
    }
}

impl LinkCache {
    /// The most entries the cache holds.
    pub closed spec fn capacity(&self) -> nat {
        lru_capacity(self.inner)
    }

    /// The cache's invariant: keys are unique, and there are at most
    /// `capacity` of them.
    pub open spec fn wf(&self) -> bool {
        &&& self.capacity() > 0
        &&& self@.len() <= self.capacity()
        &&& keys_unique(self@)
    }

    /// An empty cache holding at most `cap` entries.
    pub fn new(cap: usize) -> (r: LinkCache)
        requires
            cap > 0,
        ensures
            r.wf(),
            r@ == Seq::<(Seq<char>, Seq<char>)>::empty(),
            r.capacity() == cap,
    {
        LinkCache { inner: lru_new(cap) }
    }

    /// Stores `url` under `key` as the most recently used entry. Returns the
    /// value the key had, if it was present; a full cache without the key
    /// drops its least recently used entry.
    pub fn put(&mut self, key: String, url: String) -> (r: Option<String>)
        requires
            old(self).wf(),
        ensures
            final(self).wf(),
            final(self).capacity() == old(self).capacity(),
            final(self)@ == put_entries(old(self)@, old(self).capacity(), key@, url@),
            has_key(old(self)@, key@) ==> (r matches Some(x) && x@ == old(self)@[key_at(
                old(self)@,
                key@,
            )].1),
            !has_key(old(self)@, key@) ==> r is None,
    {
        let ghost k = key@;
        let ghost v = url@;
        let r = lru_put(&mut self.inner, key, url);
        proof {
            lemma_put_keeps_wf(old(self)@, old(self).capacity(), k, v);
        }
        r
    }

    /// The URL stored under `key`, which becomes the most recently used
    /// entry; `None` on a miss, which changes nothing.
    pub fn get(&mut self, key: &str) -> (r: Option<String>)
        requires
            old(self).wf(),
        ensures
            final(self).wf(),
            final(self).capacity() == old(self).capacity(),
            final(self)@ == get_entries(old(self)@, key@),
            has_key(old(self)@, key@) ==> (r matches Some(x) && x@ == old(self)@[key_at(
                old(self)@,
                key@,
            )].1),
            !has_key(old(self)@, key@) ==> r is None,
    {
        let r = lru_get(&mut self.inner, key);
        proof {
            lemma_get_keeps_wf(old(self)@, key@);
        }
        r
    }

    /// Takes the entry with `key` out of the cache and returns it.
    pub fn pop(&mut self, key: &str) -> (r: Option<(String, String)>)
        requires
            old(self).wf(),
        ensures
            final(self).wf(),
            final(self).capacity() == old(self).capacity(),
            final(self)@ == pop_entries(old(self)@, key@),
            has_key(old(self)@, key@) ==> (r matches Some(x) && x.0@ == key@ && x.1@
                == old(self)@[key_at(old(self)@, key@)].1),
            !has_key(old(self)@, key@) ==> r is None,
    {
        let r = lru_pop_entry(&mut self.inner, key);
        proof {
            lemma_pop_keeps_wf(old(self)@, key@);
        }
        r
    }

    /// The number of entries.
    pub fn len(&self) -> (r: usize)
        ensures
            r == self@.len(),
    {
        lru_len(&self.inner)
    }
}

proof fn lemma_key_at(e: Seq<(Seq<char>, Seq<char>)>, k: Seq<char>)
    requires
        has_key(e, k),
    ensures
        0 <= key_at(e, k) < e.len(),
        e[key_at(e, k)].0 == k,
{
}

proof fn lemma_remove_keeps_unique(e: Seq<(Seq<char>, Seq<char>)>, i: int)
    requires
        keys_unique(e),
        0 <= i < e.len(),
    ensures
        keys_unique(e.remove(i)),
        forall|j: int| 0 <= j < e.remove(i).len() ==> (#[trigger] e.remove(i)[j]).0 != e[i].0,
{
    let r = e.remove(i);
    assert forall|a: int, b: int| 0 <= a < b < r.len() implies (#[trigger] r[a]).0 != (
    #[trigger] r[b]).0 by {
        let a0 = if a < i { a } else { a + 1 };
        let b0 = if b < i { b } else { b + 1 };
        assert(r[a] == e[a0]);
        assert(r[b] == e[b0]);
    }
    assert forall|j: int| 0 <= j < r.len() implies (#[trigger] r[j]).0 != e[i].0 by {
        let j0 = if j < i { j } else { j + 1 };
        assert(r[j] == e[j0]);
    }
}

proof fn lemma_front_keeps_unique(x: (Seq<char>, Seq<char>), e: Seq<(Seq<char>, Seq<char>)>)
    requires
        keys_unique(e),
        forall|j: int| 0 <= j < e.len() ==> (#[trigger] e[j]).0 != x.0,
    ensures
        keys_unique(seq![x] + e),
{
    let r = seq![x] + e;
    assert forall|a: int, b: int| 0 <= a < b < r.len() implies (#[trigger] r[a]).0 != (
    #[trigger] r[b]).0 by {
        assert(r[b] == e[b - 1]);
        if a > 0 {
            assert(r[a] == e[a - 1]);
        }
    }
}

proof fn lemma_put_keeps_wf(e: Seq<(Seq<char>, Seq<char>)>, cap: nat, k: Seq<char>, v: Seq<char>)
    requires
        cap > 0,
        e.len() <= cap,
        keys_unique(e),
    ensures
        put_entries(e, cap, k, v).len() <= cap,
        keys_unique(put_entries(e, cap, k, v)),
{
    if has_key(e, k) {
        lemma_key_at(e, k);
        lemma_remove_keeps_unique(e, key_at(e, k));
        lemma_front_keeps_unique((k, v), e.remove(key_at(e, k)));
    } else {
        let rest = if e.len() >= cap { e.drop_last() } else { e };
        assert forall|j: int| 0 <= j < rest.len() implies (#[trigger] rest[j]).0 != k by {
            assert(rest[j] == e[j]);
        }
        assert forall|a: int, b: int| 0 <= a < b < rest.len() implies (#[trigger] rest[a]).0 != (
        #[trigger] rest[b]).0 by {
            assert(rest[a] == e[a]);
            assert(rest[b] == e[b]);
        }
        lemma_front_keeps_unique((k, v), rest);
    }
}

proof fn lemma_get_keeps_wf(e: Seq<(Seq<char>, Seq<char>)>, k: Seq<char>)
    requires
        keys_unique(e),
    ensures
        get_entries(e, k).len() == e.len(),
        keys_unique(get_entries(e, k)),
{
    if has_key(e, k) {
        lemma_key_at(e, k);
        lemma_remove_keeps_unique(e, key_at(e, k));
        lemma_front_keeps_unique(e[key_at(e, k)], e.remove(key_at(e, k)));
    }
}

proof fn lemma_pop_keeps_wf(e: Seq<(Seq<char>, Seq<char>)>, k: Seq<char>)
    requires
        keys_unique(e),
    ensures
        pop_entries(e, k).len() <= e.len(),
        keys_unique(pop_entries(e, k)),
{
    if has_key(e, k) {
        lemma_key_at(e, k);
        lemma_remove_keeps_unique(e, key_at(e, k));
    }
}

/// The entries after putting each pair of `ps`, in order.
pub open spec fn put_all(
    e: Seq<(Seq<char>, Seq<char>)>,
    cap: nat,
    ps: Seq<(Seq<char>, Seq<char>)>,
) -> Seq<(Seq<char>, Seq<char>)>
    decreases ps.len(),
{
    if ps.len() == 0 {
        e
    } else {
        put_entries(put_all(e, cap, ps.drop_last()), cap, ps.last().0, ps.last().1)
    }
}

/// `ps` listed from the last to the first.
pub open spec fn newest_first(ps: Seq<(Seq<char>, Seq<char>)>) -> Seq<(Seq<char>, Seq<char>)> {
    Seq::new(ps.len(), |m: int| ps[ps.len() - 1 - m])
}

/// Putting a new key into a full cache drops exactly the least recently used
/// entry: every other key stays, and the new entry comes first.
pub proof fn lemma_full_put_evicts_lru(
    e: Seq<(Seq<char>, Seq<char>)>,
    cap: nat,
    k: Seq<char>,
    v: Seq<char>,
)
    requires
        cap > 0,
        e.len() == cap,
        keys_unique(e),
        !has_key(e, k),
    ensures
        put_entries(e, cap, k, v) == seq![(k, v)] + e.drop_last(),
        !has_key(put_entries(e, cap, k, v), e.last().0),
        forall|j: int| 0 <= j < e.len() - 1 ==> has_key(put_entries(e, cap, k, v), #[trigger] e[j].0),
{
    let r = put_entries(e, cap, k, v);
    assert forall|j: int| 0 <= j < e.len() - 1 implies has_key(r, #[trigger] e[j].0) by {
        assert(r[j + 1] == e[j]);
    }
    if has_key(r, e.last().0) {
        let i = choose|i: int| 0 <= i < r.len() && (#[trigger] r[i]).0 == e.last().0;
        if i > 0 {
            assert(r[i] == e[i - 1]);
        }
    }
}

/// A lookup hit makes its entry the most recently used.
pub proof fn lemma_get_promotes(e: Seq<(Seq<char>, Seq<char>)>, k: Seq<char>)
    requires
        has_key(e, k),
    ensures
        get_entries(e, k)[0].0 == k,
        get_entries(e, k).len() == e.len(),
{
    lemma_key_at(e, k);
}

/// A key that a lookup has just touched survives the next eviction when the
/// cache holds at least two entries.
pub proof fn lemma_touched_key_survives_eviction(
    e: Seq<(Seq<char>, Seq<char>)>,
    cap: nat,
    touched: Seq<char>,
    k: Seq<char>,
    v: Seq<char>,
)
    requires
        cap >= 2,
        e.len() == cap,
        keys_unique(e),
        has_key(e, touched),
        !has_key(e, k),
    ensures
        has_key(put_entries(get_entries(e, touched), cap, k, v), touched),
{
    lemma_get_keeps_wf(e, touched);
    lemma_get_promotes(e, touched);
    let g = get_entries(e, touched);
    lemma_key_at(e, touched);
    assert(!has_key(g, k)) by {
        if has_key(g, k) {
            let i = choose|i: int| 0 <= i < g.len() && (#[trigger] g[i]).0 == k;
            let ki = key_at(e, touched);
            if i > 0 {
                let i0 = if i - 1 < ki { i - 1 } else { i };
                assert(g[i] == e.remove(ki)[i - 1]);
                assert(e[i0].0 == k);
            }
        }
    }
    lemma_full_put_evicts_lru(g, cap, k, v);
    assert(put_entries(g, cap, k, v)[1] == g[0]);
}

proof fn lemma_fill_below_capacity(cap: nat, ps: Seq<(Seq<char>, Seq<char>)>, i: int)
    requires
        0 <= i <= ps.len(),
        i <= cap,
        keys_unique(ps),
    ensures
        put_all(Seq::empty(), cap, ps.take(i)) == newest_first(ps.take(i)),
    decreases i,
{
    if i > 0 {
        lemma_fill_below_capacity(cap, ps, i - 1);
        let prev = ps.take(i - 1);
        assert(ps.take(i).drop_last() == prev);
        let before = newest_first(prev);
        let k = ps[i - 1].0;
        assert(!has_key(before, k)) by {
            if has_key(before, k) {
                let m = choose|m: int| 0 <= m < before.len() && (#[trigger] before[m]).0 == k;
                assert(before[m] == ps[i - 2 - m]);
            }
        }
        assert(seq![ps[i - 1]] + before =~= newest_first(ps.take(i)));
    }
}

/// Putting `cap + 1` distinct keys into an empty cache of capacity `cap`
/// evicts exactly the first key put, the least recently used; the others stay,
/// newest first.
pub proof fn lemma_overfill_evicts_first(cap: nat, ps: Seq<(Seq<char>, Seq<char>)>)
    requires
        cap > 0,
        ps.len() == cap + 1,
        keys_unique(ps),
    ensures
        put_all(Seq::empty(), cap, ps) == newest_first(ps.drop_first()),
        !has_key(put_all(Seq::empty(), cap, ps), ps[0].0),
{
    lemma_fill_below_capacity(cap, ps, cap as int);
    let full = newest_first(ps.take(cap as int));
    assert(ps.drop_last() == ps.take(cap as int));
    assert(keys_unique(full)) by {
        assert forall|a: int, b: int| 0 <= a < b < full.len() implies (#[trigger] full[a]).0 != (
        #[trigger] full[b]).0 by {
            assert(full[a] == ps[cap - 1 - a]);
            assert(full[b] == ps[cap - 1 - b]);
        }
    }
    let k = ps[cap as int].0;
    assert(!has_key(full, k)) by {
        if has_key(full, k) {
            let m = choose|m: int| 0 <= m < full.len() && (#[trigger] full[m]).0 == k;
            assert(full[m] == ps[cap - 1 - m]);
        }
    }
    lemma_full_put_evicts_lru(full, cap, k, ps[cap as int].1);
    assert(full.last() == ps[0]);
    assert(seq![ps[cap as int]] + full.drop_last() =~= newest_first(ps.drop_first()));
}

} // verus!
