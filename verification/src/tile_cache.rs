//! The bounded cache of tiles, seen as the list of its entries from the
//! most recently used to the least recently used.
//!
//! The functions that call the cache are taken on trust from the `lru`
//! crate: each states what the cache method it calls is documented to do.

use vstd::prelude::*;
use std::sync::Arc;
use crate::tile_format::Rows;

verus! {

/// The cache of the `lru` crate. Nothing is known of a cache but what
/// the functions below state of the entries that it holds.
#[verifier::external_type_specification]
#[verifier::external_body]
#[verifier::reject_recursive_types(K)]
#[verifier::reject_recursive_types(V)]
#[verifier::reject_recursive_types(S)]
pub struct ExLruCache<K, V, S>(lru::LruCache<K, V, S>);

/// The hasher that a cache of the `lru` crate uses unless it is given
/// another. It is only named here, for the type of the cache.
#[verifier::external_type_specification]
#[verifier::external_body]
pub struct ExDefaultHasher(lru::DefaultHasher);

/// The entries of a cache, each with its tile index and the rows of its
/// tile, from the most recently used to the least recently used.
pub uninterp spec fn cache_entries(c: lru::LruCache<usize, Arc<Vec<Vec<String>>>>) -> Seq<
    (usize, Seq<Seq<Seq<char>>>),
>;

/// The number of entries that a cache was made to hold.
pub uninterp spec fn cache_capacity(c: lru::LruCache<usize, Arc<Vec<Vec<String>>>>) -> nat;

/// The position of the entry with key `k`, or -1 if there is none.
pub open spec fn entry_index(entries: Seq<(usize, Rows)>, k: usize) -> int
    decreases entries.len(),
{
    if entries.len() == 0 {
        -1
    } else if entries.last().0 == k && entry_index(entries.drop_last(), k) < 0 {
        entries.len() - 1
    } else {
        entry_index(entries.drop_last(), k)
    }
}

/// The entries after the one at position `i` was used.
pub open spec fn touched(entries: Seq<(usize, Rows)>, i: int) -> Seq<(usize, Rows)> {
    seq![entries[i]] + entries.remove(i)
}

/// The entries after `k` was put in with `rows`, in a cache that holds at most `cap`.
pub open spec fn with_entry(entries: Seq<(usize, Rows)>, cap: nat, k: usize, rows: Rows) -> Seq<
    (usize, Rows),
> {
    let i = entry_index(entries, k);
    if i >= 0 {
        seq![(k, rows)] + entries.remove(i)
    } else if entries.len() >= cap {
        seq![(k, rows)] + entries.drop_last()
    } else {
        seq![(k, rows)] + entries
    }
}

/// `LruCache::new`: an empty cache for at most `cap` entries.
#[verifier::external_body]
pub(crate) fn cache_new(cap: usize) -> (c: lru::LruCache<usize, Arc<Vec<Vec<String>>>>)
    requires
        cap > 0,
    ensures
        cache_entries(c) == Seq::<(usize, Rows)>::empty(),
        cache_capacity(c) == cap,
{
    lru::LruCache::new(std::num::NonZeroUsize::new(cap).unwrap())
}

/// `LruCache::get`: the tile under `k` if the cache holds one, which then
/// becomes the most recently used entry; `None` and no change otherwise.
#[verifier::external_body]
pub(crate) fn cache_get(c: &mut lru::LruCache<usize, Arc<Vec<Vec<String>>>>, k: usize) -> (t:
    Option<Arc<Vec<Vec<String>>>>)
    ensures
        cache_capacity(*final(c)) == cache_capacity(*old(c)),
        match t {
            Some(tile) => entry_index(cache_entries(*old(c)), k) >= 0 && tile.deep_view()
                == cache_entries(*old(c))[entry_index(cache_entries(*old(c)), k)].1
                && cache_entries(*final(c)) == touched(
                cache_entries(*old(c)),
                entry_index(cache_entries(*old(c)), k),
            ),
            None => entry_index(cache_entries(*old(c)), k) < 0 && cache_entries(*final(c))
                == cache_entries(*old(c)),
        },
{
    c.get(&k).cloned()
}

/// `LruCache::put`: `tile` becomes the most recently used entry under `k`.
/// It takes the place of an entry with the same key; else, in a full
/// cache, the least recently used entry leaves.
#[verifier::external_body]
pub(crate) fn cache_put(
    c: &mut lru::LruCache<usize, Arc<Vec<Vec<String>>>>,
    k: usize,
    tile: Arc<Vec<Vec<String>>>,
)
    ensures
        cache_capacity(*final(c)) == cache_capacity(*old(c)),
        cache_entries(*final(c)) == with_entry(
            cache_entries(*old(c)),
            cache_capacity(*old(c)),
            k,
            tile.deep_view(),
        ),
{
    let _ = c.put(k, tile);
}

/// `Arc::clone`: another handle to the same tile.
#[verifier::external_body]
pub(crate) fn share(tile: &Arc<Vec<Vec<String>>>) -> (t: Arc<Vec<Vec<String>>>)
    ensures
        t == *tile,
{
    Arc::clone(tile)
}

/// Where an entry with key `k` stands, it holds that key; where none
/// stands, no entry holds it.
pub proof fn lemma_entry_index(entries: Seq<(usize, Rows)>, k: usize)
    ensures
        -1 <= entry_index(entries, k) < entries.len(),
        entry_index(entries, k) >= 0 ==> entries[entry_index(entries, k)].0 == k,
        entry_index(entries, k) < 0 ==> forall|j: int|
            0 <= j < entries.len() ==> (#[trigger] entries[j]).0 != k,
    decreases entries.len(),
{
    if entries.len() > 0 {
        lemma_entry_index(entries.drop_last(), k);
        if entry_index(entries, k) < 0 {
            assert forall|j: int| 0 <= j < entries.len() implies (#[trigger] entries[j]).0
                != k by {
                if j < entries.len() - 1 {
                    assert(entries.drop_last()[j] == entries[j]);
                }
            }
        }
    }
}

/// The keys of the entries, in the order of the entries.
pub open spec fn keys_of(entries: Seq<(usize, Rows)>) -> Seq<usize> {
    entries.map_values(|e: (usize, Rows)| e.0)
}

/// The position of the key `k`, or -1 if it is not among the keys.
pub open spec fn key_index(keys: Seq<usize>, k: usize) -> int
    decreases keys.len(),
{
    if keys.len() == 0 {
        -1
    } else if keys.last() == k && key_index(keys.drop_last(), k) < 0 {
        keys.len() - 1
    } else {
        key_index(keys.drop_last(), k)
    }
}

/// The keys of a cache for at most `cap` entries after the key `k` was
/// used: `k` comes first; the other keys keep their order, and the last
/// of them leaves if the cache was full and did not hold `k`.
pub open spec fn used(keys: Seq<usize>, cap: nat, k: usize) -> Seq<usize> {
    let i = key_index(keys, k);
    if i >= 0 {
        seq![k] + keys.remove(i)
    } else if keys.len() >= cap {
        seq![k] + keys.drop_last()
    } else {
        seq![k] + keys
    }
}

/// An entry stands where its key stands among the keys.
pub proof fn lemma_key_index(entries: Seq<(usize, Rows)>, k: usize)
    ensures
        entry_index(entries, k) == key_index(keys_of(entries), k),
    decreases entries.len(),
{
    if entries.len() > 0 {
        lemma_key_index(entries.drop_last(), k);
        assert(keys_of(entries).drop_last() == keys_of(entries.drop_last()));
    }
}

/// The keys after an entry was used or put in.
pub proof fn lemma_keys_used(entries: Seq<(usize, Rows)>, cap: nat, k: usize, rows: Rows)
    requires
        cap > 0,
    ensures
        entry_index(entries, k) >= 0 ==> keys_of(touched(entries, entry_index(entries, k)))
            == used(keys_of(entries), cap, k),
        keys_of(with_entry(entries, cap, k, rows)) == used(keys_of(entries), cap, k),
{
    lemma_key_index(entries, k);
    lemma_entry_index(entries, k);
    let i = entry_index(entries, k);
    let keys = keys_of(entries);
    if i >= 0 {
        assert(keys_of(touched(entries, i)) =~= seq![k] + keys.remove(i));
        assert(keys_of(with_entry(entries, cap, k, rows)) =~= seq![k] + keys.remove(i));
    } else if entries.len() >= cap {
        assert(keys_of(with_entry(entries, cap, k, rows)) =~= seq![k] + keys.drop_last());
    } else {
        assert(keys_of(with_entry(entries, cap, k, rows)) =~= seq![k] + keys);
    }
}

} // verus!
