//! Recovery after an install that was killed midway: which leftovers in a
//! project are swept, and which pre-install backup is restored.

use vstd::prelude::*;
use crate::text::{chars_starts_with, starts_with, str_chars};

verus! {

/// What a leftover entry of an interrupted install is.
#[derive(Debug, Clone, Copy, PartialEq, Eq, Structural)]
pub enum LeftoverKind {
    /// A lifecycle snapshot (`.mgc-snap-*`): removed.
    Snapshot,
    /// A staging directory (`.mgc-stage-*`, `install-stage-*`): removed.
    Staging,
    /// A pre-install backup of `node_modules` (`.mgc-prev-*`).
    Backup,
    /// Anything else: left alone.
    Other,
}

/// Only real directories (never symbolic links, never files) with one of
/// the install's own prefixes are leftovers.
pub open spec fn spec_leftover_kind(name: Seq<char>, is_real_dir: bool) -> LeftoverKind {
    if !is_real_dir {
        LeftoverKind::Other
    } else if starts_with(name, ".mgc-snap-"@) {
        LeftoverKind::Snapshot
    } else if starts_with(name, ".mgc-stage-"@) || starts_with(name, "install-stage-"@) {
        LeftoverKind::Staging
    } else if starts_with(name, ".mgc-prev-"@) {
        LeftoverKind::Backup
    } else {
        LeftoverKind::Other
    }
}

/// Classifies a directory entry by its name; `is_real_dir` tells whether
/// the entry itself (not what a link points to) is a directory.
pub fn leftover_kind(name: &str, is_real_dir: bool) -> (r: LeftoverKind)
    ensures
        r == spec_leftover_kind(name@, is_real_dir),
{
    if !is_real_dir {
        return LeftoverKind::Other;
    }
    let n = str_chars(name);
    if chars_starts_with(&n, &str_chars(".mgc-snap-")) {
        LeftoverKind::Snapshot
    } else if chars_starts_with(&n, &str_chars(".mgc-stage-")) || chars_starts_with(
        &n,
        &str_chars("install-stage-"),
    ) {
        LeftoverKind::Staging
    } else if chars_starts_with(&n, &str_chars(".mgc-prev-")) {
        LeftoverKind::Backup
    } else {
        LeftoverKind::Other
    }
}

/// Recovery never touches what is not the install's own: a file, a
/// symbolic link, or a directory without one of its prefixes is left
/// alone.
pub proof fn law_recovery_spares_foreign_entries(name: Seq<char>, is_real_dir: bool)
    ensures
        !is_real_dir ==> spec_leftover_kind(name, is_real_dir) == LeftoverKind::Other,
        !starts_with(name, ".mgc-snap-"@) && !starts_with(name, ".mgc-stage-"@) && !starts_with(
            name,
            "install-stage-"@,
        ) && !starts_with(name, ".mgc-prev-"@) ==> spec_leftover_kind(name, is_real_dir)
            == LeftoverKind::Other,
{
}

/// The backup restored: the one modified last (by `mtimes`, nanoseconds
/// since the epoch), the later-listed one among equals; none without
/// backups. Every other backup is litter.
pub fn newest_backup(mtimes: &Vec<u128>) -> (r: Option<usize>)
    ensures
        r.is_none() <==> mtimes.len() == 0,
        r matches Some(i) ==> i < mtimes.len() && (forall|j: int|
            0 <= j < mtimes.len() ==> mtimes@[j] <= mtimes@[i as int]) && (forall|j: int|
            i < j < mtimes.len() ==> mtimes@[j] < mtimes@[i as int]),
{
    let mut best: Option<usize> = None;
    let mut i: usize = 0;
    while i < mtimes.len()
        invariant
            i <= mtimes.len(),
            best.is_none() <==> i == 0,
            best matches Some(b) ==> b < i && (forall|j: int| 0 <= j < i ==> mtimes@[j] <= mtimes@[b as int])
                && (forall|j: int| b < j < i ==> mtimes@[j] < mtimes@[b as int]),
        decreases mtimes.len() - i,
    {
        match best {
            Some(b) => {
                if mtimes[i] >= mtimes[b] {
                    best = Some(i);
                }
            },
            None => {
                best = Some(i);
            },
        }
        i = i + 1;
    }
    best
}

/// What taking a pre-install backup of the live tree does.
#[derive(Debug, Clone, Copy, PartialEq, Eq, Structural)]
pub enum BackupStep {
    /// Nothing to protect: the live tree is absent or empty.
    Skip,
    /// The live tree is read-only: the install is refused.
    RefuseReadOnly,
    /// The live tree is renamed aside and an empty one recreated.
    MoveAside,
}

/// An absent or empty live tree needs no backup (backing up emptiness would
/// later restore it over a fresh tree); a read-only one is refused; any
/// other is moved aside.
pub fn backup_step(present: bool, empty: bool, read_only: bool) -> (r: BackupStep)
    ensures
        r == (if !present || empty {
            BackupStep::Skip
        } else if read_only {
            BackupStep::RefuseReadOnly
        } else {
            BackupStep::MoveAside
        }),
{
    if !present || empty {
        BackupStep::Skip
    } else if read_only {
        BackupStep::RefuseReadOnly
    } else {
        BackupStep::MoveAside
    }
}

pub open spec fn read_only_refusal(live: Seq<char>) -> Seq<char> {
    "cannot stage install: existing '"@ + live
        + "' is read-only \u{2014} refusing to replace an immutable tree (adjust permissions to reinstall)"@
}

/// The refusal to back up a read-only live tree.
pub fn read_only_refusal_message(live: &str) -> (r: String)
    ensures
        r@ == read_only_refusal(live@),
{
    let mut m = crate::text::str_to_string("cannot stage install: existing '");
    crate::text::string_append(&mut m, live);
    crate::text::string_append(
        &mut m,
        "' is read-only \u{2014} refusing to replace an immutable tree (adjust permissions to reinstall)",
    );
    m
}

/// The failures of a rollback, joined by `; `.
pub open spec fn joined_failures(failures: Seq<Seq<char>>) -> Seq<char>
    decreases failures.len(),
{
    if failures.len() == 0 {
        Seq::empty()
    } else if failures.len() == 1 {
        failures[0]
    } else {
        joined_failures(failures.drop_last()) + "; "@ + failures.last()
    }
}

/// See [`joined_failures`].
pub fn rollback_error(failures: &Vec<String>) -> (r: String)
    ensures
        r@ == joined_failures(crate::text::strings_view(failures@)),
{
    let ghost fv = crate::text::strings_view(failures@);
    let mut out = crate::text::str_to_string("");
    let mut i: usize = 0;
    proof {
        reveal_strlit("");
        assert(fv.take(0) =~= Seq::<Seq<char>>::empty());
    }
    while i < failures.len()
        invariant
            i <= failures.len(),
            fv == crate::text::strings_view(failures@),
            out@ == joined_failures(fv.take(i as int)),
        decreases failures.len() - i,
    {
        proof {
            assert(fv.take(i + 1).drop_last() =~= fv.take(i as int));
            assert(fv.take(i + 1).last() == failures@[i as int]@);
        }
        if i > 0 {
            crate::text::string_append(&mut out, "; ");
        }
        let ghost before = out@;
        crate::text::string_append(&mut out, failures[i].as_str());
        proof {
            if i == 0 {
                assert(fv.take(1) =~= seq![failures@[0]@]);
            }
        }
        i = i + 1;
    }
    proof {
        assert(fv.take(failures.len() as int) =~= fv);
    }
    out
}

} // verus!
