//! The store of loaded chunks: a bounded map from chunk coordinates to chunks
//! that drops the entry that was put least recently once it is full.

use vstd::prelude::*;
use lru::LruCache;
use crate::chunks::VoxelChunk;
use crate::constants::CHUNKS_LOADED;

verus! {

/// The largest capacity that a store can be made with.
pub const MAX_CAPACITY: usize = 65536;

/// `lru::LruCache`, taken as it is: nothing of its inside is known here.
#[verifier::external_type_specification]
#[verifier::external_body]
#[verifier::reject_recursive_types(K)]
#[verifier::reject_recursive_types(V)]
#[verifier::reject_recursive_types(S)]
pub struct ExLruCache<K, V, S>(LruCache<K, V, S>);

/// `lru::DefaultHasher`, the hasher of an `LruCache` that was made without
/// one; nothing of its inside is known here.
#[verifier::external_type_specification]
#[verifier::external_body]
pub struct ExDefaultHasher(lru::DefaultHasher);

/// What an `LruCache` holds: its entries, the one put least recently first
/// and the one put last at the end.
pub uninterp spec fn lru_entries(cache: &LruCache<(i64, i64), VoxelChunk>) -> Seq<
    ((i64, i64), VoxelChunk),
>;

/// The capacity that an `LruCache` was made with.
pub uninterp spec fn lru_capacity(cache: &LruCache<(i64, i64), VoxelChunk>) -> usize;

/// Whether some entry has the key `key`.
pub open spec fn holds_key(entries: Seq<((i64, i64), VoxelChunk)>, key: (i64, i64)) -> bool {
    exists|i: int| 0 <= i < entries.len() && (#[trigger] entries[i]).0 == key
}

/// The place of an entry with the key `key`.
pub open spec fn index_of_key(entries: Seq<((i64, i64), VoxelChunk)>, key: (i64, i64)) -> int {
    choose|i: int| 0 <= i < entries.len() && (#[trigger] entries[i]).0 == key
}

/// No two entries have the same key.
pub open spec fn distinct_keys(entries: Seq<((i64, i64), VoxelChunk)>) -> bool {
    forall|i: int, j: int|
        0 <= i < j < entries.len() ==> (#[trigger] entries[i]).0 != (#[trigger] entries[j]).0
}

/// The entries after `chunk` was put under `key` into a store of the given
/// capacity. An entry with that key gives way to the new one, which goes to
/// the end. A new key goes to the end too; where the store is full, the first
/// entry leaves for it. A store without capacity takes nothing.
pub open spec fn spec_put(
    entries: Seq<((i64, i64), VoxelChunk)>,
    capacity: nat,
    key: (i64, i64),
    chunk: VoxelChunk,
) -> Seq<((i64, i64), VoxelChunk)> {
    if holds_key(entries, key) {
        entries.remove(index_of_key(entries, key)).push((key, chunk))
    } else if capacity == 0 {
        entries
    } else if entries.len() == capacity {
        entries.drop_first().push((key, chunk))
    } else {
        entries.push((key, chunk))
    }
}

/// `LruCache::new`: an empty cache of capacity `capacity`. The cache reserves
/// room for all its entries when it is made, which fails for a capacity that
/// memory cannot hold: capacities above `MAX_CAPACITY` are left out.
#[verifier::external_body]
fn lru_new(capacity: usize) -> (cache: LruCache<(i64, i64), VoxelChunk>)
    requires
        capacity <= MAX_CAPACITY,
    ensures
        lru_entries(&cache) == Seq::<((i64, i64), VoxelChunk)>::empty(),
        lru_capacity(&cache) == capacity,
{
    LruCache::new(capacity)
}

/// `LruCache::contains`: whether an entry has the key; the cache stays as it
/// is.
#[verifier::external_body]
fn lru_contains(cache: &LruCache<(i64, i64), VoxelChunk>, key: (i64, i64)) -> (found: bool)
    ensures
        found == holds_key(lru_entries(cache), key),
{
    cache.contains(&key)
}

/// `LruCache::len`: the number of entries.
#[verifier::external_body]
fn lru_len(cache: &LruCache<(i64, i64), VoxelChunk>) -> (n: usize)
    ensures
        n == lru_entries(cache).len(),
{
    cache.len()
}

/// `LruCache::cap`: the capacity that the cache was made with.
#[verifier::external_body]
fn lru_cap(cache: &LruCache<(i64, i64), VoxelChunk>) -> (n: usize)
    ensures
        n == lru_capacity(cache),
{
    cache.cap()
}

/// `LruCache::put`: the entries change as `spec_put` says, the capacity
/// stays.
#[verifier::external_body]
fn lru_put(cache: &mut LruCache<(i64, i64), VoxelChunk>, key: (i64, i64), chunk: VoxelChunk)
    ensures
        lru_entries(final(cache)) == spec_put(
            lru_entries(old(cache)),
            lru_capacity(old(cache)) as nat,
            key,
            chunk,
        ),
        lru_capacity(final(cache)) == lru_capacity(old(cache)),
{
    cache.put(key, chunk);
}

/// What holds of the entries of a store of capacity `capacity`: there is room
/// for at least one, no key occurs twice, and no more entries than the
/// capacity allows.
pub open spec fn wf_entries(entries: Seq<((i64, i64), VoxelChunk)>, capacity: nat) -> bool {
    &&& capacity >= 1
    &&& distinct_keys(entries)
    &&& entries.len() <= capacity
}

/// The entries after each of `items` was put, the first of them first.
pub open spec fn spec_put_all(
    entries: Seq<((i64, i64), VoxelChunk)>,
    capacity: nat,
    items: Seq<((i64, i64), VoxelChunk)>,
) -> Seq<((i64, i64), VoxelChunk)>
    decreases items.len(),
{
    if items.len() == 0 {
        entries
    } else {
        spec_put(
            spec_put_all(entries, capacity, items.drop_last()),
            capacity,
            items.last().0,
            items.last().1,
        )
    }
}

/// Where no key occurs twice, the key that is held is held at one place.
proof fn lemma_index_of_key(entries: Seq<((i64, i64), VoxelChunk)>, key: (i64, i64))
    requires
        holds_key(entries, key),
    ensures
        0 <= index_of_key(entries, key) < entries.len(),
        entries[index_of_key(entries, key)].0 == key,
{
}

/// A put keeps the entries well formed and leaves the new entry at the end.
pub proof fn lemma_put_wf(
    entries: Seq<((i64, i64), VoxelChunk)>,
    capacity: nat,
    key: (i64, i64),
    chunk: VoxelChunk,
)
    requires
        wf_entries(entries, capacity),
    ensures
        wf_entries(spec_put(entries, capacity, key, chunk), capacity),
        spec_put(entries, capacity, key, chunk).len() >= 1,
        spec_put(entries, capacity, key, chunk).last() == (key, chunk),
        holds_key(spec_put(entries, capacity, key, chunk), key),
{
    let after = spec_put(entries, capacity, key, chunk);
    if holds_key(entries, key) {
        lemma_index_of_key(entries, key);
        let at = index_of_key(entries, key);
        let rest = entries.remove(at);
        assert forall|i: int| 0 <= i < rest.len() implies (#[trigger] rest[i]).0 != key by {
            if i < at {
                assert(rest[i] == entries[i]);
            } else {
                assert(rest[i] == entries[i + 1]);
            }
        }
        assert forall|i: int, j: int| 0 <= i < j < rest.len() implies (#[trigger] rest[i]).0 != (
        #[trigger] rest[j]).0 by {
            let a = if i < at { i } else { i + 1 };
            let b = if j < at { j } else { j + 1 };
            assert(rest[i] == entries[a]);
            assert(rest[j] == entries[b]);
        }
        assert(after == rest.push((key, chunk)));
    } else if entries.len() == capacity {
        let rest = entries.drop_first();
        assert forall|i: int| 0 <= i < rest.len() implies (#[trigger] rest[i]).0 != key by {
            assert(rest[i] == entries[i + 1]);
        }
        assert forall|i: int, j: int| 0 <= i < j < rest.len() implies (#[trigger] rest[i]).0 != (
        #[trigger] rest[j]).0 by {
            assert(rest[i] == entries[i + 1]);
            assert(rest[j] == entries[j + 1]);
        }
        assert(after == rest.push((key, chunk)));
    } else {
        assert forall|i: int| 0 <= i < entries.len() implies (#[trigger] entries[i]).0 != key by {
        }
        assert(after == entries.push((key, chunk)));
    }
    assert(after[after.len() - 1] == (key, chunk));
}

/// What a put does to the other chunks: a put into a full store under a new
/// key drops the first entry and nothing else; any other put drops nothing.
/// The number of entries grows by one where the key is new and there is
/// room, and stays otherwise.
pub proof fn lemma_put_effect(
    entries: Seq<((i64, i64), VoxelChunk)>,
    capacity: nat,
    key: (i64, i64),
    chunk: VoxelChunk,
    other: (i64, i64),
)
    requires
        wf_entries(entries, capacity),
        other != key,
    ensures
        spec_put(entries, capacity, key, chunk).len() == if holds_key(entries, key)
            || entries.len() == capacity {
            entries.len()
        } else {
            entries.len() + 1
        },
        holds_key(spec_put(entries, capacity, key, chunk), other) <==> holds_key(entries, other)
            && !(!holds_key(entries, key) && entries.len() == capacity && entries[0].0 == other),
{
    let after = spec_put(entries, capacity, key, chunk);
    if holds_key(entries, key) {
        lemma_index_of_key(entries, key);
        let at = index_of_key(entries, key);
        let rest = entries.remove(at);
        assert(after == rest.push((key, chunk)));
        if holds_key(entries, other) {
            let i = index_of_key(entries, other);
            lemma_index_of_key(entries, other);
            if i < at {
                assert(after[i] == entries[i]);
            } else {
                assert(after[i - 1] == entries[i]);
            }
        }
        if holds_key(after, other) {
            let i = index_of_key(after, other);
            lemma_index_of_key(after, other);
            if i < at {
                assert(after[i] == entries[i]);
            } else {
                assert(after[i] == entries[i + 1]);
            }
        }
    } else if entries.len() == capacity {
        let rest = entries.drop_first();
        assert(after == rest.push((key, chunk)));
        if holds_key(entries, other) {
            let i = index_of_key(entries, other);
            lemma_index_of_key(entries, other);
            if i > 0 {
                assert(after[i - 1] == entries[i]);
            }
        }
        if holds_key(after, other) {
            let i = index_of_key(after, other);
            lemma_index_of_key(after, other);
            assert(after[i] == entries[i + 1]);
            if entries[0].0 == other {
                assert(entries[0].0 != entries[i + 1].0);
            }
        }
    } else {
        assert(after == entries.push((key, chunk)));
        if holds_key(entries, other) {
            let i = index_of_key(entries, other);
            lemma_index_of_key(entries, other);
            assert(after[i] == entries[i]);
        }
        if holds_key(after, other) {
            let i = index_of_key(after, other);
            lemma_index_of_key(after, other);
            assert(after[i] == entries[i]);
        }
    }
}

/// After a run of puts of distinct keys, no longer than the capacity, the
/// entries end with what was put, in the order of the puts.
proof fn lemma_put_all_suffix(
    entries: Seq<((i64, i64), VoxelChunk)>,
    capacity: nat,
    items: Seq<((i64, i64), VoxelChunk)>,
)
    requires
        wf_entries(entries, capacity),
        distinct_keys(items),
        items.len() <= capacity,
    ensures
        wf_entries(spec_put_all(entries, capacity, items), capacity),
        spec_put_all(entries, capacity, items).len() >= items.len(),
        forall|t: int|
            0 <= t < items.len() ==> spec_put_all(entries, capacity, items)[spec_put_all(
                entries,
                capacity,
                items,
            ).len() - items.len() + t] == #[trigger] items[t],
    decreases items.len(),
{
    if items.len() > 0 {
        let before = items.drop_last();
        let key = items.last().0;
        let chunk = items.last().1;
        assert forall|i: int, j: int| 0 <= i < j < before.len() implies (#[trigger] before[i]).0
            != (#[trigger] before[j]).0 by {
            assert(before[i] == items[i]);
            assert(before[j] == items[j]);
        }
        lemma_put_all_suffix(entries, capacity, before);
        let mid = spec_put_all(entries, capacity, before);
        let after = spec_put(mid, capacity, key, chunk);
        assert(after == spec_put_all(entries, capacity, items));
        lemma_put_wf(mid, capacity, key, chunk);
        let base = mid.len() - before.len();
        assert forall|t: int| 0 <= t < before.len() implies (#[trigger] mid[base + t]).0
            != key by {
            assert(mid[base + t] == before[t]);
            assert(before[t] == items[t]);
            assert(items[t].0 != items[items.len() - 1].0);
        }
        if holds_key(mid, key) {
            lemma_index_of_key(mid, key);
            let at = index_of_key(mid, key);
            if at >= base {
                assert(mid[base + (at - base)].0 != key);
            }
            assert(at < base);
            assert forall|t: int| 0 <= t < items.len() implies after[after.len() - items.len()
                + t] == #[trigger] items[t] by {
                if t < before.len() {
                    assert(after[after.len() - items.len() + t] == mid[base + t]);
                    assert(mid[base + t] == before[t]);
                }
            }
        } else if mid.len() == capacity {
            assert forall|t: int| 0 <= t < items.len() implies after[after.len() - items.len()
                + t] == #[trigger] items[t] by {
                if t < before.len() {
                    assert(after[after.len() - items.len() + t] == mid[base + t]);
                    assert(mid[base + t] == before[t]);
                }
            }
        } else {
            assert forall|t: int| 0 <= t < items.len() implies after[after.len() - items.len()
                + t] == #[trigger] items[t] by {
                if t < before.len() {
                    assert(after[after.len() - items.len() + t] == mid[base + t]);
                    assert(mid[base + t] == before[t]);
                }
            }
        }
    }
}

/// However many chunks are put, one after the other, the store stays well
/// formed: it never holds more entries than its capacity, and no key twice.
pub proof fn lemma_put_all_bounded(
    entries: Seq<((i64, i64), VoxelChunk)>,
    capacity: nat,
    items: Seq<((i64, i64), VoxelChunk)>,
)
    requires
        wf_entries(entries, capacity),
    ensures
        wf_entries(spec_put_all(entries, capacity, items), capacity),
        spec_put_all(entries, capacity, items).len() <= capacity,
    decreases items.len(),
{
    if items.len() > 0 {
        lemma_put_all_bounded(entries, capacity, items.drop_last());
        lemma_put_wf(
            spec_put_all(entries, capacity, items.drop_last()),
            capacity,
            items.last().0,
            items.last().1,
        );
    }
}

/// Putting one chunk more than the capacity, all under different keys, leaves
/// exactly the chunks that were put after the first, in the order of the
/// puts: the first key is gone and each later one is held.
pub proof fn lemma_eviction_order(
    entries: Seq<((i64, i64), VoxelChunk)>,
    capacity: nat,
    items: Seq<((i64, i64), VoxelChunk)>,
)
    requires
        wf_entries(entries, capacity),
        distinct_keys(items),
        items.len() == capacity + 1,
    ensures
        spec_put_all(entries, capacity, items) == items.drop_first(),
        !holds_key(spec_put_all(entries, capacity, items), items[0].0),
        forall|t: int|
            1 <= t < items.len() ==> holds_key(
                spec_put_all(entries, capacity, items),
                (#[trigger] items[t]).0,
            ),
{
    let before = items.drop_last();
    let key = items.last().0;
    let chunk = items.last().1;
    assert forall|i: int, j: int| 0 <= i < j < before.len() implies (#[trigger] before[i]).0 != (
    #[trigger] before[j]).0 by {
        assert(before[i] == items[i]);
        assert(before[j] == items[j]);
    }
    lemma_put_all_suffix(entries, capacity, before);
    let mid = spec_put_all(entries, capacity, before);
    assert(mid.len() == capacity);
    assert(mid =~= before);
    let after = spec_put(mid, capacity, key, chunk);
    assert(after == spec_put_all(entries, capacity, items));
    assert forall|i: int| 0 <= i < mid.len() implies (#[trigger] mid[i]).0 != key by {
        assert(mid[i] == items[i]);
        assert(items[i].0 != items[items.len() - 1].0);
    }
    assert(!holds_key(mid, key));
    assert(after =~= items.drop_first());
    let kept = items.drop_first();
    assert forall|i: int| 0 <= i < kept.len() implies (#[trigger] kept[i]).0 != items[0].0 by {
        assert(kept[i] == items[i + 1]);
    }
    assert forall|t: int| 1 <= t < items.len() implies holds_key(kept, (#[trigger] items[t]).0) by {
        assert(kept[t - 1] == items[t]);
    }
}

/// The loaded chunks, by coordinate. Its view is the sequence of its entries,
/// the one put least recently first.
pub struct LoadedChunks {
    chunks: LruCache<(i64, i64), VoxelChunk>,
}

impl View for LoadedChunks {
    type V = Seq<((i64, i64), VoxelChunk)>;

    closed spec fn view(&self) -> Seq<((i64, i64), VoxelChunk)> {
        lru_entries(&self.chunks)
    }
}

impl LoadedChunks {
    /// The number of chunks that the store can hold.
    pub closed spec fn spec_capacity(&self) -> nat {
        lru_capacity(&self.chunks) as nat
    }

    /// The store's invariant.
    pub open spec fn wf(&self) -> bool {
        wf_entries(self@, self.spec_capacity())
    }

    /// Whether the chunk at `(x, y)` is held.
    pub open spec fn spec_is_loaded(&self, x: i64, y: i64) -> bool {
        holds_key(self@, (x, y))
    }

    /// An empty store for `capacity` chunks, where `capacity` is at least one
    /// and at most `MAX_CAPACITY`; nothing otherwise.
    pub fn new(capacity: usize) -> (made: Option<LoadedChunks>)
        ensures
            made.is_some() <==> 1 <= capacity <= MAX_CAPACITY,
            match made {
                Some(store) => store.wf() && store@.len() == 0 && store.spec_capacity()
                    == capacity,
                None => true,
            },
    {
        if capacity < 1 || capacity > MAX_CAPACITY {
            None
        } else {
            Some(LoadedChunks { chunks: lru_new(capacity) })
        }
    }

    /// Whether the chunk at `(x, y)` is held. Asking changes nothing: neither
    /// what is held nor which entry leaves next.
    pub fn is_loaded(&self, x: i64, y: i64) -> (loaded: bool)
        ensures
            loaded == self.spec_is_loaded(x, y),
    {
        lru_contains(&self.chunks, (x, y))
    }

    /// Puts `chunk` under `(x, y)`. A chunk held under that coordinate is
    /// replaced. Where the coordinate is new and the store is full, the chunk
    /// that was put least recently leaves. The new chunk is then the one put
    /// most recently.
    pub fn insert(&mut self, x: i64, y: i64, chunk: VoxelChunk)
        requires
            old(self).wf(),
        ensures
            final(self)@ == spec_put(old(self)@, old(self).spec_capacity(), (x, y), chunk),
            final(self).spec_capacity() == old(self).spec_capacity(),
            final(self).wf(),
            final(self)@.len() <= final(self).spec_capacity(),
            final(self).spec_is_loaded(x, y),
            final(self)@.last() == ((x, y), chunk),
    {
        proof {
            lemma_put_wf(self@, self.spec_capacity(), (x, y), chunk);
        }
        lru_put(&mut self.chunks, (x, y), chunk);
    }

    /// The number of chunks held.
    pub fn len(&self) -> (n: usize)
        ensures
            n == self@.len(),
    {
        lru_len(&self.chunks)
    }

    /// The number of chunks that the store can hold.
    pub fn capacity(&self) -> (n: usize)
        ensures
            n == self.spec_capacity(),
    {
        lru_cap(&self.chunks)
    }
}

impl Default for LoadedChunks {
    /// An empty store for `CHUNKS_LOADED` chunks.
    fn default() -> (store: Self)
        ensures
            store.wf(),
            store@.len() == 0,
            store.spec_capacity() == CHUNKS_LOADED,
    {
        LoadedChunks { chunks: lru_new(CHUNKS_LOADED) }
    }
}

} // verus!
