//! An in-memory store of tarball bytes keyed by package, for warm installs
//! within one process.

use vstd::prelude::*;
use crate::text::{chars_eq, str_chars};
use crate::types::PackageId;

verus! {

/// The key of a package: `name@version`.
pub open spec fn daemon_key(id: PackageId) -> Seq<char> {
    id.name@ + "@"@ + id.version@
}

/// Tarball bytes by package key; each key occurs once.
pub struct MemoryCacheDaemon {
    entries: Vec<(String, Vec<u8>)>,
}

/// More entries than this empty the store before the next insertion.
pub const MEMORY_CACHE_MAX_ENTRIES: usize = 10000;

pub open spec fn entries_map(entries: Seq<(String, Vec<u8>)>) -> Map<Seq<char>, Seq<u8>>
    decreases entries.len(),
{
    if entries.len() == 0 {
        Map::empty()
    } else {
        entries_map(entries.drop_last()).insert(entries.last().0@, entries.last().1@)
    }
}

pub open spec fn distinct_keys(entries: Seq<(String, Vec<u8>)>) -> bool {
    forall|i: int, j: int|
        0 <= i < j < entries.len() ==> #[trigger] entries[i].0@ != #[trigger] entries[j].0@
}

proof fn lemma_map_lookup(entries: Seq<(String, Vec<u8>)>, k: int)
    requires
        distinct_keys(entries),
        0 <= k < entries.len(),
    ensures
        entries_map(entries).contains_key(entries[k].0@),
        entries_map(entries)[entries[k].0@] == entries[k].1@,
    decreases entries.len(),
{
    if k < entries.len() - 1 {
        lemma_map_lookup(entries.drop_last(), k);
        assert(entries.last().0@ != entries[k].0@);
    }
}

proof fn lemma_map_keys(entries: Seq<(String, Vec<u8>)>, key: Seq<char>)
    requires
        entries_map(entries).contains_key(key),
    ensures
        exists|k: int| 0 <= k < entries.len() && #[trigger] entries[k].0@ == key,
    decreases entries.len(),
{
    if entries.last().0@ != key {
        lemma_map_keys(entries.drop_last(), key);
        let k = choose|k: int| 0 <= k < entries.drop_last().len() && #[trigger] entries.drop_last()[k].0@ == key;
        assert(entries[k].0@ == key);
    } else {
        assert(entries[entries.len() - 1].0@ == key);
    }
}

fn copy_bytes(data: &[u8]) -> (r: Vec<u8>)
    ensures
        r@ == data@,
{
    let mut out: Vec<u8> = Vec::new();
    let mut i: usize = 0;
    while i < data.len()
        invariant
            i <= data.len(),
            out@ == data@.take(i as int),
        decreases data.len() - i,
    {
        out.push(data[i]);
        proof {
            assert(data@.take(i + 1) =~= data@.take(i as int).push(data@[i as int]));
        }
        i = i + 1;
    }
    proof {
        assert(data@.take(data.len() as int) =~= data@);
    }
    out
}

impl MemoryCacheDaemon {
    pub closed spec fn view(&self) -> Map<Seq<char>, Seq<u8>> {
        entries_map(self.entries@)
    }

    pub closed spec fn wf(&self) -> bool {
        distinct_keys(self.entries@)
    }

    pub closed spec fn len(&self) -> nat {
        self.entries@.len()
    }

    pub fn new() -> (r: MemoryCacheDaemon)
        ensures
            r.wf(),
            r.view() == Map::<Seq<char>, Seq<u8>>::empty(),
            r.len() == 0,
    {
        MemoryCacheDaemon { entries: Vec::new() }
    }

    fn key_of(id: &PackageId) -> (r: Vec<char>)
        ensures
            r@ == daemon_key(*id),
    {
        let d = id.display();
        str_chars(d.as_str())
    }

    /// The bytes stored for a package.
    pub fn get(&self, id: &PackageId) -> (r: Option<Vec<u8>>)
        requires
            self.wf(),
        ensures
            match r {
                Some(b) => self.view().contains_key(daemon_key(*id)) && self.view()[daemon_key(*id)]
                    == b@,
                None => !self.view().contains_key(daemon_key(*id)),
            },
    {
        let key = Self::key_of(id);
        let mut i: usize = 0;
        while i < self.entries.len()
            invariant
                i <= self.entries.len(),
                distinct_keys(self.entries@),
                key@ == daemon_key(*id),
                forall|k: int| 0 <= k < i ==> #[trigger] self.entries@[k].0@ != key@,
            decreases self.entries.len() - i,
        {
            if chars_eq(&str_chars(self.entries[i].0.as_str()), &key) {
                proof {
                    lemma_map_lookup(self.entries@, i as int);
                }
                return Some(self.entries[i].1.clone());
            }
            i = i + 1;
        }
        proof {
            if entries_map(self.entries@).contains_key(key@) {
                lemma_map_keys(self.entries@, key@);
            }
        }
        None
    }

    /// Stores the bytes of a package, replacing what was stored for it; a
    /// store holding more than [`MEMORY_CACHE_MAX_ENTRIES`] entries is
    /// emptied first.
    pub fn insert(&mut self, id: &PackageId, data: &[u8])
        requires
            old(self).wf(),
        ensures
            final(self).wf(),
            final(self).view() == inserted_view(old(self).view(), old(self).len(), *id, data@),
    {
        if self.entries.len() > MEMORY_CACHE_MAX_ENTRIES {
            self.entries = Vec::new();
        }
        let ghost base = self.entries@;
        let ghost start = if old(self).len() > MEMORY_CACHE_MAX_ENTRIES {
            Map::<Seq<char>, Seq<u8>>::empty()
        } else {
            old(self).view()
        };
        proof {
            assert(entries_map(base) == start);
        }
        let key = Self::key_of(id);
        let mut i: usize = 0;
        while i < self.entries.len()
            invariant
                i <= self.entries.len(),
                self.entries@ == base,
                entries_map(base) == start,
                start == (if old(self).len() > MEMORY_CACHE_MAX_ENTRIES {
                    Map::<Seq<char>, Seq<u8>>::empty()
                } else {
                    old(self).view()
                }),
                distinct_keys(base),
                key@ == daemon_key(*id),
                forall|k: int| 0 <= k < i ==> #[trigger] base[k].0@ != key@,
            decreases self.entries.len() - i,
        {
            if chars_eq(&str_chars(self.entries[i].0.as_str()), &key) {
                let entry = (crate::text::string_from_chars(&key), copy_bytes(data));
                self.entries.set(i, entry);
                proof {
                    lemma_map_update(base, i as int, entry);
                    assert(self.entries@ == base.update(i as int, entry));
                    assert forall|a: int, b: int| 0 <= a < b < self.entries@.len() implies #[trigger] self.entries@[a].0@
                        != #[trigger] self.entries@[b].0@ by {
                        assert(self.entries@[a].0@ == base[a].0@);
                        assert(self.entries@[b].0@ == base[b].0@);
                    }
                }
                return;
            }
            i = i + 1;
        }
        let entry = (crate::text::string_from_chars(&key), copy_bytes(data));
        self.entries.push(entry);
        proof {
            assert(self.entries@ == base.push(entry));
            assert(self.entries@.drop_last() =~= base);
            assert forall|a: int, b: int| 0 <= a < b < self.entries@.len() implies #[trigger] self.entries@[a].0@
                != #[trigger] self.entries@[b].0@ by {
                assert(self.entries@[a] == base[a]);
                if b < base.len() {
                    assert(self.entries@[b] == base[b]);
                }
            }
        }
    }
}

/// Replacing the value of a key held at `i` changes the map at that key
/// only.
proof fn lemma_map_update(entries: Seq<(String, Vec<u8>)>, i: int, e: (String, Vec<u8>))
    requires
        distinct_keys(entries),
        0 <= i < entries.len(),
        e.0@ == entries[i].0@,
    ensures
        entries_map(entries.update(i, e)) == entries_map(entries).insert(e.0@, e.1@),
    decreases entries.len(),
{
    let u = entries.update(i, e);
    assert(u.drop_last() =~= if i < entries.len() - 1 {
        entries.drop_last().update(i, e)
    } else {
        entries.drop_last()
    });
    if i < entries.len() - 1 {
        lemma_map_update(entries.drop_last(), i, e);
        assert(entries.last().0@ != e.0@);
        assert(entries_map(u) =~= entries_map(entries).insert(e.0@, e.1@));
    } else {
        assert(entries_map(u) =~= entries_map(entries).insert(e.0@, e.1@));
    }
}

/// The view of a store after `insert(id, data)` on `before` (see
/// [`MemoryCacheDaemon::insert`]).
pub open spec fn inserted_view(
    before: Map<Seq<char>, Seq<u8>>,
    before_len: nat,
    id: PackageId,
    data: Seq<u8>,
) -> Map<Seq<char>, Seq<u8>> {
    (if before_len > MEMORY_CACHE_MAX_ENTRIES {
        Map::<Seq<char>, Seq<u8>>::empty()
    } else {
        before
    }).insert(daemon_key(id), data)
}

/// A read gives back the last write: after `insert(id, data)` the package
/// reads as `data`; no other package gains an entry or changes its bytes,
/// and below the size limit every other entry stays.
pub proof fn law_get_after_insert(
    before: Map<Seq<char>, Seq<u8>>,
    before_len: nat,
    id: PackageId,
    data: Seq<u8>,
    other: Seq<char>,
)
    ensures
        inserted_view(before, before_len, id, data).contains_key(daemon_key(id)),
        inserted_view(before, before_len, id, data)[daemon_key(id)] == data,
        other != daemon_key(id) && inserted_view(before, before_len, id, data).contains_key(other)
            ==> before.contains_key(other) && inserted_view(before, before_len, id, data)[other]
            == before[other],
        other != daemon_key(id) && before_len <= MEMORY_CACHE_MAX_ENTRIES && before.contains_key(
            other,
        ) ==> inserted_view(before, before_len, id, data).contains_key(other),
{
}

} // verus!
