//! The least-recently-used cache of the `lru_cache` crate, as this library
//! uses it: keys are integers, values strings.
//!
//! A cache stands for the sequence of its entries from the least to the most
//! recently used, and for its capacity.
use vstd::prelude::*;
use core::hash::{BuildHasher, Hash};
use lru_cache::LruCache;

verus! {

#[verifier::external_type_specification]
#[verifier::external_body]
#[verifier::reject_recursive_types(K)]
#[verifier::reject_recursive_types(V)]
#[verifier::reject_recursive_types(S)]
pub struct ExLruCache<K: Eq + Hash, V, S: BuildHasher>(LruCache<K, V, S>);

/// The entries of a cache, from the least to the most recently used.
pub uninterp spec fn lru_entries(c: LruCache<u64, String>) -> Seq<(u64, Seq<char>)>;

/// The capacity a cache was made with.
pub uninterp spec fn lru_capacity(c: LruCache<u64, String>) -> nat;

/// The position of key `k` among the entries.
pub open spec fn key_index<K>(e: Seq<(K, Seq<char>)>, k: K) -> Option<int>
    decreases e.len(),
{
    if e.len() == 0 {
        None
    } else if e.last().0 == k {
        Some(e.len() - 1)
    } else {
        key_index(e.drop_last(), k)
    }
}

/// The entries without the one for key `k`.
pub open spec fn without_key<K>(e: Seq<(K, Seq<char>)>, k: K) -> Seq<(K, Seq<char>)>
    decreases e.len(),
{
    if e.len() == 0 {
        e
    } else if e.last().0 == k {
        without_key(e.drop_last(), k)
    } else {
        without_key(e.drop_last(), k).push(e.last())
    }
}

/// The entries after inserting `v` for `k` into a cache of capacity `cap`:
/// the entry for `k` becomes the most recently used, and when the cache is
/// then over capacity its least recently used entry goes.
pub open spec fn inserted<K>(e: Seq<(K, Seq<char>)>, k: K, v: Seq<char>, cap: nat) -> Seq<
    (K, Seq<char>),
> {
    let e2 = without_key(e, k).push((k, v));
    if e2.len() > cap {
        e2.drop_first()
    } else {
        e2
    }
}

/// The entries after looking up `k`: a present entry becomes the most
/// recently used.
pub open spec fn refreshed<K>(e: Seq<(K, Seq<char>)>, k: K) -> Seq<(K, Seq<char>)> {
    match key_index(e, k) {
        Some(i) => without_key(e, k).push(e[i]),
        None => e,
    }
}

/// `LruCache::new`: an empty cache of the given capacity.
#[verifier::external_body]
pub(crate) fn lru_new(capacity: usize) -> (c: LruCache<u64, String>)
    ensures
        lru_entries(c) == Seq::<(u64, Seq<char>)>::empty(),
        lru_capacity(c) == capacity as nat,
{
    LruCache::new(capacity)
}

/// `LruCache::insert`: stores `v` for `k` as the most recently used entry,
/// then drops the least recently used entry when over capacity.
#[verifier::external_body]
pub(crate) fn lru_insert(c: &mut LruCache<u64, String>, k: u64, v: String)
    ensures
        lru_entries(*final(c)) == inserted(lru_entries(*old(c)), k, v@, lru_capacity(*old(c))),
        lru_capacity(*final(c)) == lru_capacity(*old(c)),
{
    c.insert(k, v);
}

/// `LruCache::get_mut`, with the value copied out: the value for `k`, if
/// present, whose entry becomes the most recently used.
#[verifier::external_body]
pub(crate) fn lru_get(c: &mut LruCache<u64, String>, k: u64) -> (r: Option<String>)
    ensures
        match key_index(lru_entries(*old(c)), k) {
            Some(i) => r matches Some(v) && v@ == lru_entries(*old(c))[i].1,
            None => r is None,
        },
        lru_entries(*final(c)) == refreshed(lru_entries(*old(c)), k),
        lru_capacity(*final(c)) == lru_capacity(*old(c)),
{
    match c.get_mut(&k) {
        Some(v) => Some(v.clone()),
        None => None,
    }
}

/// `LruCache::remove_lru`: takes out the least recently used entry.
#[verifier::external_body]
pub(crate) fn lru_remove_lru(c: &mut LruCache<u64, String>) -> (r: Option<(u64, String)>)
    ensures
        lru_entries(*old(c)).len() == 0 ==> r is None && lru_entries(*final(c)) == lru_entries(
            *old(c),
        ),
        lru_entries(*old(c)).len() > 0 ==> (r matches Some(p) && (p.0, p.1@) == lru_entries(
            *old(c),
        )[0]),
        lru_entries(*old(c)).len() > 0 ==> lru_entries(*final(c)) == lru_entries(*old(c)).drop_first(),
        lru_capacity(*final(c)) == lru_capacity(*old(c)),
{
    c.remove_lru()
}

} // verus!
