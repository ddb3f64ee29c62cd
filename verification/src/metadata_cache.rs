//! The in-memory cache of registry metadata: least recently used entries
//! leave first, and an entry older than its time to live is not served.

use vstd::prelude::*;
use std::sync::Arc;
use crate::env_config::{opt_view, spec_u64_setting, u64_setting};
use crate::native::npm_registry::PackageMetadata;

verus! {

#[verifier::external_type_specification]
#[verifier::external_body]
#[verifier::reject_recursive_types(K)]
#[verifier::reject_recursive_types(V)]
#[verifier::reject_recursive_types(S)]
pub struct ExLruCache<K, V, S>(lru::LruCache<K, V, S>);

#[verifier::external_type_specification]
#[verifier::external_body]
pub struct ExLruHasher(lru::DefaultHasher);

#[verifier::external_type_specification]
#[verifier::external_body]
pub struct ExInstant(std::time::Instant);

/// One cached document and the clock reading (nanoseconds since the cache
/// was made) at which it was stored.
pub type CacheEntry = (Arc<PackageMetadata>, u128);

/// The entries of an LRU cache of metadata, least recently used first, each
/// with the characters of its key.
pub uninterp spec fn lru_entries(c: lru::LruCache<String, (Arc<PackageMetadata>, u128)>) -> Seq<
    (Seq<char>, (Arc<PackageMetadata>, u128)),
>;

/// The capacity an LRU cache of metadata was made with.
pub uninterp spec fn lru_capacity(c: lru::LruCache<String, (Arc<PackageMetadata>, u128)>) -> nat;

/// Entries at different positions have different keys.
pub open spec fn keys_distinct(entries: Seq<(Seq<char>, CacheEntry)>) -> bool {
    forall|i: int, j: int|
        0 <= i < entries.len() && 0 <= j < entries.len() && i != j ==> #[trigger] entries[i].0
            != #[trigger] entries[j].0
}

pub open spec fn has_key(entries: Seq<(Seq<char>, CacheEntry)>, key: Seq<char>) -> bool {
    exists|i: int| 0 <= i < entries.len() && #[trigger] entries[i].0 == key
}

/// The entries after a read of the entry at `i`: it becomes the most
/// recently used.
pub open spec fn promote(entries: Seq<(Seq<char>, CacheEntry)>, i: int) -> Seq<
    (Seq<char>, CacheEntry),
> {
    entries.remove(i).push(entries[i])
}

/// The entries after storing `value` under `key` in a cache of capacity
/// `cap`: a present key is replaced and becomes the most recently used; a new
/// key is appended, after the least recently used entry leaves a full cache.
pub open spec fn spec_put(
    entries: Seq<(Seq<char>, CacheEntry)>,
    cap: nat,
    key: Seq<char>,
    value: CacheEntry,
) -> Seq<(Seq<char>, CacheEntry)> {
    if has_key(entries, key) {
        let i = choose|i: int| 0 <= i < entries.len() && #[trigger] entries[i].0 == key;
        entries.remove(i).push((key, value))
    } else if entries.len() >= cap {
        entries.drop_first().push((key, value))
    } else {
        entries.push((key, value))
    }
}

/// Creates an empty cache through `lru::LruCache::new`. The bound on the
/// capacity keeps the table's initial allocation (`with_capacity`) clear of
/// its capacity-overflow panic: a larger capacity makes the table's layout
/// exceed `isize::MAX` bytes, on 32- and 64-bit targets alike. (Whether the
/// memory can be had is the allocator's matter, as it was before.)
#[verifier::external_body]
fn lru_new(cap: usize) -> (c: lru::LruCache<String, (Arc<PackageMetadata>, u128)>)
    requires
        0 < cap <= METADATA_CACHE_CAPACITY_LIMIT,
    ensures
        lru_entries(c) == Seq::<(Seq<char>, CacheEntry)>::empty(),
        lru_capacity(c) == cap,
{
    lru::LruCache::new(std::num::NonZeroUsize::new(cap).unwrap_or(std::num::NonZeroUsize::MIN))
}

/// Reads an entry through `lru::LruCache::get`, which returns the value
/// stored under `key` (here cloned: the `Arc` points at the same document)
/// and makes that entry the most recently used; a missing key changes
/// nothing.
#[verifier::external_body]
fn lru_get(c: &mut lru::LruCache<String, (Arc<PackageMetadata>, u128)>, key: &str) -> (r: Option<
    CacheEntry,
>)
    requires
        keys_distinct(lru_entries(*old(c))),
    ensures
        r.is_some() == has_key(lru_entries(*old(c)), key@),
        !has_key(lru_entries(*old(c)), key@) ==> lru_entries(*final(c)) == lru_entries(*old(c)),
        forall|i: int|
            0 <= i < lru_entries(*old(c)).len() && #[trigger] lru_entries(*old(c))[i].0 == key@
                ==> r == Some(lru_entries(*old(c))[i].1) && lru_entries(*final(c)) == promote(
                lru_entries(*old(c)),
                i,
            ),
        lru_capacity(*final(c)) == lru_capacity(*old(c)),
{
    c.get(key).cloned()
}

/// Removes an entry through `lru::LruCache::pop`, which returns the value
/// that was stored under `key`; the other entries keep their order.
#[verifier::external_body]
fn lru_pop(c: &mut lru::LruCache<String, (Arc<PackageMetadata>, u128)>, key: &str) -> (r: Option<
    CacheEntry,
>)
    requires
        keys_distinct(lru_entries(*old(c))),
    ensures
        r.is_some() == has_key(lru_entries(*old(c)), key@),
        !has_key(lru_entries(*old(c)), key@) ==> lru_entries(*final(c)) == lru_entries(*old(c)),
        forall|i: int|
            0 <= i < lru_entries(*old(c)).len() && #[trigger] lru_entries(*old(c))[i].0 == key@
                ==> r == Some(lru_entries(*old(c))[i].1) && lru_entries(*final(c)) == lru_entries(
                *old(c),
            ).remove(i),
        lru_capacity(*final(c)) == lru_capacity(*old(c)),
{
    c.pop(key)
}

/// Stores an entry through `lru::LruCache::put`: a present key gets the new
/// value and becomes the most recently used; a new key is attached as the
/// most recently used, after the least recently used entry has been
/// removed from a full cache.
#[verifier::external_body]
fn lru_put(
    c: &mut lru::LruCache<String, (Arc<PackageMetadata>, u128)>,
    key: String,
    value: CacheEntry,
)
    requires
        keys_distinct(lru_entries(*old(c))),
        lru_entries(*old(c)).len() <= lru_capacity(*old(c)),
    ensures
        lru_entries(*final(c)) == spec_put(
            lru_entries(*old(c)),
            lru_capacity(*old(c)),
            key@,
            value,
        ),
        lru_capacity(*final(c)) == lru_capacity(*old(c)),
{
    c.put(key, value);
}

/// Reads the monotonic clock through `std::time::Instant::now`; nothing is
/// claimed of the reading.
#[verifier::external_body]
fn instant_now() -> (r: std::time::Instant) {
    std::time::Instant::now()
}

/// Nanoseconds elapsed since `start`, through `std::time::Instant::elapsed`
/// (converted with `Duration::as_nanos`); the reading depends on the clock,
/// so nothing is claimed of it.
#[verifier::external_body]
fn nanos_since(start: &std::time::Instant) -> (r: u128) {
    start.elapsed().as_nanos()
}

pub const MAX_METADATA_CACHE_ENTRIES: usize = 2048;

pub const METADATA_CACHE_TTL_SECS: u64 = 21600;

/// The largest capacity a metadata cache can be made with: beyond it the
/// table's layout would not fit in `isize::MAX` bytes.
pub const METADATA_CACHE_CAPACITY_LIMIT: usize = usize::MAX / 128;

/// The capacity a raw `MAGICORE_WEB_METADATA_CACHE_MAX_ENTRIES` setting asks
/// for: the trimmed value parsed as `usize`, else 2048; zero becomes one.
pub open spec fn spec_cache_capacity(raw: Option<Seq<char>>) -> nat {
    let n = spec_u64_setting(raw, 2048);
    if n > usize::MAX {
        2048
    } else if n == 0 {
        1
    } else {
        n as nat
    }
}

/// The time to live, in seconds, that a raw
/// `MAGICORE_WEB_METADATA_CACHE_TTL_SECS` setting asks for (default 6 hours).
pub open spec fn spec_cache_ttl_secs(raw: Option<Seq<char>>) -> u64 {
    spec_u64_setting(raw, 21600)
}

/// The capacity that a raw `MAGICORE_WEB_METADATA_CACHE_MAX_ENTRIES`
/// setting gives the cache.
pub fn metadata_cache_capacity(raw: Option<&str>) -> (r: usize)
    ensures
        r == spec_cache_capacity(opt_view(raw)),
{
    let n = u64_setting(raw, 2048);
    if n > usize::MAX as u64 {
        MAX_METADATA_CACHE_ENTRIES
    } else if n == 0 {
        1
    } else {
        n as usize
    }
}

/// An entry stored at `stored` is served at `now` while less than `ttl`
/// nanoseconds have passed (a clock reading before `stored` counts as none).
pub open spec fn spec_fresh(stored: u128, now: u128, ttl: u128) -> bool {
    (if now >= stored {
        now - stored
    } else {
        0
    }) < ttl
}

/// The in-memory LRU cache of registry metadata documents.
pub struct MetadataCache {
    cache: lru::LruCache<String, (Arc<PackageMetadata>, u128)>,
    ttl_nanos: u128,
    start: std::time::Instant,
}

impl MetadataCache {
    pub closed spec fn view(&self) -> Seq<(Seq<char>, CacheEntry)> {
        lru_entries(self.cache)
    }

    pub closed spec fn capacity(&self) -> nat {
        lru_capacity(self.cache)
    }

    pub closed spec fn ttl(&self) -> u128 {
        self.ttl_nanos
    }

    /// Keys are distinct and the cache holds at most its capacity.
    pub open spec fn wf(&self) -> bool {
        &&& keys_distinct(self@)
        &&& self@.len() <= self.capacity()
        &&& 0 < self.capacity()
    }

    /// A cache for the raw capacity and time-to-live settings (absent or
    /// unparsable ones take the defaults: 2048 entries, 6 hours).
    pub fn new(raw_max_entries: Option<&str>, raw_ttl_secs: Option<&str>) -> (r: Self)
        requires
            spec_cache_capacity(opt_view(raw_max_entries)) <= METADATA_CACHE_CAPACITY_LIMIT,
        ensures
            r.wf(),
            r@ == Seq::<(Seq<char>, CacheEntry)>::empty(),
            r.capacity() == spec_cache_capacity(opt_view(raw_max_entries)),
            r.ttl() == spec_cache_ttl_secs(opt_view(raw_ttl_secs)) * 1000000000,
    {
        let cap = metadata_cache_capacity(raw_max_entries);
        let ttl_secs = u64_setting(raw_ttl_secs, METADATA_CACHE_TTL_SECS);
        let ttl_nanos: u128 = ttl_secs as u128 * 1000000000;
        MetadataCache { cache: lru_new(cap), ttl_nanos, start: instant_now() }
    }

    /// Looks `key` up at clock reading `now`: a fresh entry is returned and
    /// becomes the most recently used; an expired one is dropped.
    pub fn get_at(&mut self, key: &str, now: u128) -> (r: Option<Arc<PackageMetadata>>)
        requires
            old(self).wf(),
        ensures
            final(self).wf(),
            final(self).capacity() == old(self).capacity(),
            final(self).ttl() == old(self).ttl(),
            !has_key(old(self)@, key@) ==> r is None && final(self)@ == old(self)@,
            forall|i: int|
                0 <= i < old(self)@.len() && #[trigger] old(self)@[i].0 == key@ ==> if spec_fresh(
                    old(self)@[i].1.1,
                    now,
                    old(self).ttl(),
                ) {
                    r == Some(old(self)@[i].1.0) && final(self)@ == promote(old(self)@, i)
                } else {
                    r is None && final(self)@ == old(self)@.remove(i)
                },
    {
        let ghost before = self@;
        match lru_get(&mut self.cache, key) {
            None => None,
            Some((meta, stored)) => {
                let ghost i = choose|i: int| 0 <= i < before.len() && #[trigger] before[i].0 == key@;
                proof {
                    lemma_promote_keeps_distinct(before, i);
                }
                if now.saturating_sub(stored) < self.ttl_nanos {
                    Some(meta)
                } else {
                    let ghost mid = self@;
                    let popped = lru_pop(&mut self.cache, key);
                    proof {
                        let last = (mid.len() - 1) as int;
                        assert(mid[last].0 == key@);
                        assert(mid.remove(last) =~= before.remove(i));
                        lemma_remove_keeps_distinct(mid, last);
                    }
                    None
                }
            },
        }
    }

    /// Looks `key` up now: whichever way the clock reads, a missing key
    /// gives `None`, and a present one is either served and made the most
    /// recently used, or dropped.
    pub fn get(&mut self, key: &str) -> (r: Option<Arc<PackageMetadata>>)
        requires
            old(self).wf(),
        ensures
            final(self).wf(),
            final(self).capacity() == old(self).capacity(),
            final(self).ttl() == old(self).ttl(),
            !has_key(old(self)@, key@) ==> r is None && final(self)@ == old(self)@,
            forall|i: int|
                0 <= i < old(self)@.len() && #[trigger] old(self)@[i].0 == key@ ==> (r == Some(
                    old(self)@[i].1.0,
                ) && final(self)@ == promote(old(self)@, i)) || (r is None && final(self)@ == old(
                    self,
                )@.remove(i)),
    {
        let now = nanos_since(&self.start);
        self.get_at(key, now)
    }

    /// Stores `meta` under `key` at clock reading `now`.
    pub fn insert_at(&mut self, key: String, meta: Arc<PackageMetadata>, now: u128)
        requires
            old(self).wf(),
        ensures
            final(self).wf(),
            final(self).capacity() == old(self).capacity(),
            final(self).ttl() == old(self).ttl(),
            final(self)@ == spec_put(old(self)@, old(self).capacity(), key@, (meta, now)),
    {
        let ghost k = key@;
        proof {
            lemma_put_wf(self@, self.capacity(), k, (meta, now));
        }
        lru_put(&mut self.cache, key, (meta, now));
    }

    /// Stores `meta` under `key`, stamped with the current clock reading.
    pub fn insert(&mut self, key: String, meta: Arc<PackageMetadata>)
        requires
            old(self).wf(),
        ensures
            final(self).wf(),
            final(self).capacity() == old(self).capacity(),
            final(self).ttl() == old(self).ttl(),
            exists|now: u128|
                final(self)@ == #[trigger] spec_put(
                    old(self)@,
                    old(self).capacity(),
                    key@,
                    (meta, now),
                ),
    {
        let now = nanos_since(&self.start);
        self.insert_at(key, meta, now);
    }
}

proof fn lemma_remove_keeps_distinct(entries: Seq<(Seq<char>, CacheEntry)>, i: int)
    requires
        keys_distinct(entries),
        0 <= i < entries.len(),
    ensures
        keys_distinct(entries.remove(i)),
        forall|j: int| 0 <= j < entries.remove(i).len() ==> #[trigger] entries.remove(i)[j].0 != entries[i].0,
{
    let r = entries.remove(i);
    assert forall|a: int, b: int| 0 <= a < r.len() && 0 <= b < r.len() && a != b implies #[trigger] r[a].0
        != #[trigger] r[b].0 by {
        let a2 = if a < i { a } else { a + 1 };
        let b2 = if b < i { b } else { b + 1 };
        assert(r[a] == entries[a2]);
        assert(r[b] == entries[b2]);
    }
    assert forall|j: int| 0 <= j < r.len() implies #[trigger] r[j].0 != entries[i].0 by {
        let j2 = if j < i { j } else { j + 1 };
        assert(r[j] == entries[j2]);
    }
}

proof fn lemma_promote_keeps_distinct(entries: Seq<(Seq<char>, CacheEntry)>, i: int)
    requires
        keys_distinct(entries),
        0 <= i < entries.len(),
    ensures
        keys_distinct(promote(entries, i)),
        promote(entries, i).len() == entries.len(),
{
    lemma_remove_keeps_distinct(entries, i);
    lemma_push_fresh_keeps_distinct(entries.remove(i), entries[i]);
}

proof fn lemma_push_fresh_keeps_distinct(
    entries: Seq<(Seq<char>, CacheEntry)>,
    e: (Seq<char>, CacheEntry),
)
    requires
        keys_distinct(entries),
        forall|j: int| 0 <= j < entries.len() ==> #[trigger] entries[j].0 != e.0,
    ensures
        keys_distinct(entries.push(e)),
{
    let p = entries.push(e);
    assert forall|a: int, b: int| 0 <= a < p.len() && 0 <= b < p.len() && a != b implies #[trigger] p[a].0
        != #[trigger] p[b].0 by {
        if a < entries.len() {
            assert(p[a] == entries[a]);
        }
        if b < entries.len() {
            assert(p[b] == entries[b]);
        }
    }
}

proof fn lemma_put_wf(
    entries: Seq<(Seq<char>, CacheEntry)>,
    cap: nat,
    key: Seq<char>,
    value: CacheEntry,
)
    requires
        keys_distinct(entries),
        entries.len() <= cap,
        0 < cap,
    ensures
        keys_distinct(spec_put(entries, cap, key, value)),
        spec_put(entries, cap, key, value).len() <= cap,
        has_key(spec_put(entries, cap, key, value), key),
{
    let r = spec_put(entries, cap, key, value);
    if has_key(entries, key) {
        let i = choose|i: int| 0 <= i < entries.len() && #[trigger] entries[i].0 == key;
        lemma_remove_keeps_distinct(entries, i);
        lemma_push_fresh_keeps_distinct(entries.remove(i), (key, value));
    } else if entries.len() >= cap {
        lemma_remove_keeps_distinct(entries, 0);
        assert(entries.drop_first() =~= entries.remove(0));
        assert forall|j: int| 0 <= j < entries.drop_first().len() implies #[trigger] entries.drop_first()[j].0
            != key by {
            assert(entries.drop_first()[j] == entries[j + 1]);
        }
        lemma_push_fresh_keeps_distinct(entries.drop_first(), (key, value));
    } else {
        lemma_push_fresh_keeps_distinct(entries, (key, value));
    }
    assert(r[r.len() - 1].0 == key);
}

/// Reading a key back within its time to live gives what was stored under
/// it: after `insert_at(key, meta, stored)`, `get_at(key, now)` returns
/// `meta` whenever fewer than `ttl` nanoseconds separate the two readings.
pub proof fn law_get_after_insert_within_ttl(
    entries: Seq<(Seq<char>, CacheEntry)>,
    cap: nat,
    key: Seq<char>,
    meta: Arc<PackageMetadata>,
    stored: u128,
    now: u128,
    ttl: u128,
)
    requires
        keys_distinct(entries),
        entries.len() <= cap,
        0 < cap,
        spec_fresh(stored, now, ttl),
    ensures
        ({
            let after = spec_put(entries, cap, key, (meta, stored));
            let last = after.len() - 1;
            &&& keys_distinct(after)
            &&& after[last].0 == key
            &&& after[last].1 == (meta, stored)
            &&& forall|i: int| 0 <= i < after.len() && #[trigger] after[i].0 == key ==> i == last
                && spec_fresh(after[i].1.1, now, ttl) && after[i].1.0 == meta
        }),
{
    lemma_put_wf(entries, cap, key, (meta, stored));
}

/// The cache never holds more entries than its capacity, and a store into a
/// full cache of a new key evicts exactly the least recently used entry.
pub proof fn law_capacity_respected(
    entries: Seq<(Seq<char>, CacheEntry)>,
    cap: nat,
    key: Seq<char>,
    value: CacheEntry,
)
    requires
        keys_distinct(entries),
        entries.len() <= cap,
        0 < cap,
    ensures
        spec_put(entries, cap, key, value).len() <= cap,
        !has_key(entries, key) && entries.len() == cap ==> spec_put(entries, cap, key, value)
            == entries.drop_first().push((key, value)),
{
    lemma_put_wf(entries, cap, key, value);
}

} // verus!
