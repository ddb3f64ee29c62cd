//! Pruning the shared cache: when a pass is due, which entries are old, in
//! which order directories are visited, and which entries go to bring the
//! cache back under its byte quota.

use vstd::prelude::*;
use crate::cache::current_unix_secs;
use crate::order::{key_before, order_by_key, positions, stable_order_by_key};
use crate::paths::{join, path_join};
use crate::text::{spec_decimal, u64_to_decimal, string_from_chars};

verus! {

/// `<root>/.gc-stamp`, whose age tells when the cache was last pruned.
pub fn shared_cache_prune_stamp_path(root: &str) -> (r: String)
    ensures
        r@ == path_join(root@, ".gc-stamp"@),
{
    join(root, ".gc-stamp")
}

/// A pruning pass is due when the stamp's age is unknown (missing or
/// unreadable stamp) or at least `interval_secs`.
pub fn shared_cache_prune_due(stamp_age_secs: Option<u64>, interval_secs: u64) -> (r: bool)
    ensures
        r == match stamp_age_secs {
            None => true,
            Some(a) => a >= interval_secs,
        },
{
    match stamp_age_secs {
        None => true,
        Some(a) => a >= interval_secs,
    }
}

/// An entry is old when its age is known and at least `max_age_secs`.
pub fn path_is_older_than(age_secs: Option<u64>, max_age_secs: u64) -> (r: bool)
    ensures
        r == match age_secs {
            None => false,
            Some(a) => a >= max_age_secs,
        },
{
    match age_secs {
        None => false,
        Some(a) => a >= max_age_secs,
    }
}

/// A file of the content store is pruned when it is old enough and no
/// other hard link to it remains (`link_count`: the file's link count, when
/// it can be read; an unreadable one keeps the file).
pub fn cas_file_prunable(age_secs: Option<u64>, max_age_secs: u64, link_count: Option<u64>) -> (r: bool)
    ensures
        r == (path_is_older(age_secs, max_age_secs) && match link_count {
            Some(n) => n <= 1,
            None => false,
        }),
{
    path_is_older_than(age_secs, max_age_secs) && match link_count {
        Some(n) => n <= 1,
        None => false,
    }
}

/// See [`path_is_older_than`].
pub open spec fn path_is_older(age_secs: Option<u64>, max_age_secs: u64) -> bool {
    match age_secs {
        None => false,
        Some(a) => a >= max_age_secs,
    }
}

/// The stamp written after a pass: its path and the current unix time in
/// decimal.
pub fn write_shared_cache_prune_stamp(root: &str) -> (r: (String, String))
    ensures
        r.0@ == path_join(root@, ".gc-stamp"@),
        exists|now: u64| r.1@ == spec_decimal(now as nat),
{
    let now = current_unix_secs();
    let digits = u64_to_decimal(now);
    (shared_cache_prune_stamp_path(root), string_from_chars(&digits))
}

#[derive(Debug, Clone, Copy, PartialEq, Eq)]
pub enum CachePruneEntryKind {
    File,
    Directory,
}

/// A removable cache entry: a file, or an extracted package directory whose
/// size is that of the files under it. `modified` is its modification time in
/// nanoseconds since the epoch.
#[derive(Debug)]
pub struct CachePruneEntry {
    pub path: String,
    pub bytes: u64,
    pub modified: u128,
    pub kind: CachePruneEntryKind,
}

pub open spec fn total_bytes(entries: Seq<CachePruneEntry>) -> int
    decreases entries.len(),
{
    if entries.len() == 0 {
        0
    } else {
        total_bytes(entries.drop_last()) + entries.last().bytes
    }
}

pub open spec fn modified_keys(entries: Seq<CachePruneEntry>) -> Seq<u128> {
    entries.map_values(|e: CachePruneEntry| e.modified)
}

/// Total size of the entries.
pub fn prune_entries_total(entries: &Vec<CachePruneEntry>) -> (r: u64)
    requires
        total_bytes(entries@) <= u64::MAX,
    ensures
        r == total_bytes(entries@),
{
    let mut total: u64 = 0;
    let mut i: usize = 0;
    while i < entries.len()
        invariant
            i <= entries.len(),
            total_bytes(entries@) <= u64::MAX,
            total == total_bytes(entries@.take(i as int)),
        decreases entries.len() - i,
    {
        proof {
            assert(entries@.take(i + 1).drop_last() == entries@.take(i as int));
            lemma_total_bytes_prefix(entries@, i + 1);
        }
        total = total + entries[i].bytes;
        i = i + 1;
    }
    proof {
        assert(entries@.take(entries@.len() as int) == entries@);
    }
    total
}

proof fn lemma_total_bytes_prefix(entries: Seq<CachePruneEntry>, n: int)
    requires
        0 <= n <= entries.len(),
    ensures
        total_bytes(entries.take(n)) <= total_bytes(entries),
    decreases entries.len(),
{
    if n < entries.len() {
        assert(entries.drop_last().take(n) == entries.take(n));
        lemma_total_bytes_prefix(entries.drop_last(), n);
    } else {
        assert(entries.take(n) == entries);
    }
}

/// The quota pass: `None` when nothing is to be removed (no quota, or the
/// entries already fit); otherwise the entries' positions, oldest first
/// (entries modified at the same time keep their order).
pub fn quota_prune_order(entries: &Vec<CachePruneEntry>, max_bytes: u64) -> (r: Option<Vec<usize>>)
    requires
        total_bytes(entries@) <= u64::MAX,
    ensures
        r.is_none() <==> (max_bytes == 0 || total_bytes(entries@) <= max_bytes),
        r matches Some(order) ==> stable_order_by_key(order@, modified_keys(entries@)),
{
    if max_bytes == 0 {
        return None;
    }
    let total = prune_entries_total(entries);
    if total <= max_bytes {
        return None;
    }
    let mut keys: Vec<u128> = Vec::new();
    let mut i: usize = 0;
    while i < entries.len()
        invariant
            i <= entries.len(),
            keys@ == modified_keys(entries@).take(i as int),
        decreases entries.len() - i,
    {
        keys.push(entries[i].modified);
        proof {
            assert(modified_keys(entries@).take(i + 1) == modified_keys(entries@).take(i as int).push(
                entries@[i as int].modified,
            ));
        }
        i = i + 1;
    }
    proof {
        assert(modified_keys(entries@).take(entries@.len() as int) == modified_keys(entries@));
    }
    Some(order_by_key(&keys))
}

/// The running total of a quota pass: entries are removed, oldest first,
/// while the total exceeds the quota; a removal that fails leaves the total
/// as it was.
#[derive(Debug, Clone, Copy)]
pub struct QuotaPrune {
    pub total: u64,
    pub max_bytes: u64,
}

impl QuotaPrune {
    pub fn new(total: u64, max_bytes: u64) -> (r: QuotaPrune)
        ensures
            r.total == total,
            r.max_bytes == max_bytes,
    {
        QuotaPrune { total, max_bytes }
    }

    /// Whether the next entry is to be removed.
    pub fn wants_more(&self) -> (r: bool)
        ensures
            r == (self.total > self.max_bytes),
    {
        self.total > self.max_bytes
    }

    /// Accounts for an attempt to remove an entry of `bytes` bytes.
    pub fn record_removal(&mut self, bytes: u64, removed: bool)
        ensures
            final(self).max_bytes == old(self).max_bytes,
            final(self).total == if removed {
                if old(self).total >= bytes {
                    (old(self).total - bytes) as u64
                } else {
                    0
                }
            } else {
                old(self).total
            },
    {
        if removed {
            self.total = self.total.saturating_sub(bytes);
        }
    }
}

/// Which package directories the quota pass may remove: only unpinned ones
/// that carry the package marker (a directory with only a `package.json`
/// is not the store's and is left alone).
pub fn quota_prunable_package_dir(pinned: bool, has_marker: bool) -> (r: bool)
    ensures
        r == (!pinned && has_marker),
{
    !pinned && has_marker
}

/// What happens to a directory under `packages/` in an age pass.
#[derive(Debug, Clone, Copy, PartialEq, Eq)]
pub enum PackageDirAction {
    /// Left alone.
    Keep,
    /// Removed with everything in it.
    RemoveTree,
    /// Removed only if it is empty.
    RemoveIfEmpty,
}

/// Decides the fate of a package directory: pinned directories are kept; a
/// directory with a package marker (or else a `package.json`) is removed
/// whole when that file is old; any other directory is removed if empty.
/// `marker_age` and `package_json_age` are `None` where the file is absent,
/// `Some(None)` where its age is unknown.
pub fn package_dir_prune_action(
    pinned: bool,
    marker_age: Option<Option<u64>>,
    package_json_age: Option<Option<u64>>,
    max_age_secs: u64,
) -> (r: PackageDirAction)
    ensures
        pinned ==> r == PackageDirAction::Keep,
        !pinned ==> r == match (marker_age, package_json_age) {
            (Some(age), _) => if age matches Some(a) && a >= max_age_secs {
                PackageDirAction::RemoveTree
            } else {
                PackageDirAction::Keep
            },
            (None, Some(age)) => if age matches Some(a) && a >= max_age_secs {
                PackageDirAction::RemoveTree
            } else {
                PackageDirAction::Keep
            },
            (None, None) => PackageDirAction::RemoveIfEmpty,
        },
{
    if pinned {
        return PackageDirAction::Keep;
    }
    let chosen = match marker_age {
        Some(age) => Some(age),
        None => package_json_age,
    };
    match chosen {
        Some(age) => {
            if path_is_older_than(age, max_age_secs) {
                PackageDirAction::RemoveTree
            } else {
                PackageDirAction::Keep
            }
        },
        None => PackageDirAction::RemoveIfEmpty,
    }
}

pub open spec fn depth_keys(depths: Seq<usize>) -> Seq<u128> {
    depths.map_values(|d: usize| (u128::MAX - d) as u128)
}

/// Directories deepest first (directories of equal depth keep their order),
/// so that children are handled before their parents. `depths[i]` is the
/// number of path components of directory `i`.
pub fn deepest_first_order(depths: &Vec<usize>) -> (r: Vec<usize>)
    ensures
        r.len() == depths.len(),
        r@.to_multiset() == positions(depths.len() as nat).to_multiset(),
        forall|i: int, j: int|
            0 <= i < j < r.len() ==> depths@[r@[i] as int] > depths@[r@[j] as int] || (
            depths@[r@[i] as int] == depths@[r@[j] as int] && r@[i] < r@[j]),
        forall|i: int| 0 <= i < r.len() ==> r@[i] < depths.len(),
{
    let mut keys: Vec<u128> = Vec::new();
    let mut i: usize = 0;
    while i < depths.len()
        invariant
            i <= depths.len(),
            keys@ == depth_keys(depths@).take(i as int),
        decreases depths.len() - i,
    {
        keys.push(u128::MAX - depths[i] as u128);
        proof {
            assert(depth_keys(depths@).take(i + 1) == depth_keys(depths@).take(i as int).push(
                (u128::MAX - depths@[i as int]) as u128,
            ));
        }
        i = i + 1;
    }
    proof {
        assert(depth_keys(depths@).take(depths@.len() as int) == depth_keys(depths@));
    }
    let r = order_by_key(&keys);
    proof {
        assert forall|i: int, j: int| 0 <= i < j < r.len() implies depths@[r@[i] as int]
            > depths@[r@[j] as int] || (depths@[r@[i] as int] == depths@[r@[j] as int] && r@[i]
            < r@[j]) by {
            assert(key_before(keys@, r@[i], r@[j]));
        }
    }
    r
}

/// The sum of sizes.
pub open spec fn sizes_sum(sizes: Seq<u64>) -> int
    decreases sizes.len(),
{
    if sizes.len() == 0 {
        0
    } else {
        sizes[0] + sizes_sum(sizes.drop_first())
    }
}

/// How many entries a quota pass removes when every removal succeeds:
/// taking the entries in order (oldest first), it removes the next one
/// while the total still exceeds the quota (see [`QuotaPrune`]).
pub open spec fn quota_removed(sizes: Seq<u64>, total: int, max_bytes: int) -> nat
    decreases sizes.len(),
{
    if sizes.len() == 0 || total <= max_bytes {
        0
    } else {
        1 + quota_removed(sizes.drop_first(), total - sizes[0], max_bytes)
    }
}

/// A quota pass whose removals all succeed ends within the quota and
/// removes no more than it must: it removes a prefix of the entries in
/// pass order, the entries it keeps fit in `max_bytes`, and before its
/// last removal the total was still over the quota.
pub proof fn law_quota_pass_fits(sizes: Seq<u64>, max_bytes: u64)
    ensures
        ({
            let n = quota_removed(sizes, sizes_sum(sizes), max_bytes as int);
            &&& n <= sizes.len()
            &&& sizes_sum(sizes.skip(n as int)) <= max_bytes
            &&& n > 0 ==> sizes_sum(sizes.skip(n - 1)) > max_bytes
        }),
    decreases sizes.len(),
{
    let n = quota_removed(sizes, sizes_sum(sizes), max_bytes as int);
    assert(sizes.skip(0) =~= sizes);
    if sizes.len() > 0 && sizes_sum(sizes) > max_bytes {
        let rest = sizes.drop_first();
        law_quota_pass_fits(rest, max_bytes);
        assert(sizes_sum(sizes) - sizes[0] == sizes_sum(rest));
        assert(sizes.skip(n as int) =~= rest.skip(n - 1));
        if n > 1 {
            assert(sizes.skip(n - 1) =~= rest.skip(n - 2));
        }
    } else if sizes.len() == 0 {
        assert(sizes_sum(sizes) == 0);
    }
}

} // verus!
