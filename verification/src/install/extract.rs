//! Reuse and publication of extracted package roots: when a cached root
//! may be reused, what a materialized copy must match, and how a publish
//! that races another installer is settled.

use vstd::prelude::*;
use crate::env_config::{flag_value_enabled, opt_view, spec_flag_enabled};
use crate::install::package_marker::{
    ExtractedPackageMarker, content_match_outcome, extracted_content_matches,
    extracted_marker_has_content_signature, extracted_marker_matches_fast, files_view, markers_equal,
    signature_paths,
};
use crate::text::{opt_string_view, trim};

verus! {

/// Full validation of reused roots (`MAGICORE_WEB_VALIDATE_EXTRACTED_CACHE`
/// set to `1`, `true`, `yes` or `on`).
pub fn extracted_cache_full_validation_enabled(raw: Option<&str>) -> (r: bool)
    ensures
        r == spec_flag_enabled(opt_view(raw)),
{
    flag_value_enabled(raw)
}

/// A marker that matches the expected one and carries a content signature.
pub open spec fn spec_marker_current(m: ExtractedPackageMarker, expected: ExtractedPackageMarker) -> bool {
    &&& m.schema_version == 2
    &&& m.name@ == expected.name@
    &&& m.version@ == expected.version@
    &&& opt_string_view(m.integrity) == opt_string_view(expected.integrity)
    &&& m.tarball_sha256@ == expected.tarball_sha256@
    &&& m.file_count > 0
    &&& m.unpacked_size > 0
    &&& trim(m.file_tree_sha256@).len() > 0
}

fn marker_current(m: &ExtractedPackageMarker, expected: &ExtractedPackageMarker) -> (r: bool)
    ensures
        r == spec_marker_current(*m, *expected),
{
    extracted_marker_matches_fast(m, expected) && extracted_marker_has_content_signature(m)
}

/// An extracted root is reused when it holds a `package.json` and a marker
/// that is current for the expected one, and, under full validation, its
/// files match that marker's signature. `tree_files` lists the root's files
/// (relative paths and sizes, marker excluded) when full validation is on.
pub fn extracted_root_reusable(
    package_json_exists: bool,
    marker: Option<&ExtractedPackageMarker>,
    expected: &ExtractedPackageMarker,
    full_validation: bool,
    tree_files: &Vec<(String, u64)>,
) -> (r: bool)
    requires
        tree_files.len() <= u64::MAX,
    ensures
        !package_json_exists ==> !r,
        marker.is_none() ==> !r,
        package_json_exists ==> match marker {
            None => !r,
            Some(m) => if !full_validation {
                r == spec_marker_current(*m, *expected)
            } else if !spec_marker_current(*m, *expected) {
                !r
            } else {
                content_match_outcome(*m, signature_paths(files_view(tree_files@)), r)
            },
        },
{
    if !package_json_exists {
        return false;
    }
    match marker {
        None => false,
        Some(m) => {
            if !marker_current(m, expected) {
                return false;
            }
            if !full_validation {
                return true;
            }
            let ok = extracted_content_matches(m, tree_files);
            proof {
                assert(m.file_tree_sha256@.len() > 0) by {
                    if m.file_tree_sha256@.len() == 0 {
                        assert(m.file_tree_sha256@ =~= Seq::<char>::empty());
                        assert(trim(m.file_tree_sha256@).len() == 0);
                    }
                }
            }
            ok
        },
    }
}

/// A materialized package is current when it is installed at its version
/// and, if the source root has a marker, carries an identical marker.
pub fn materialized_package_matches(
    installed_matches: bool,
    source_marker: Option<&ExtractedPackageMarker>,
    target_marker: Option<&ExtractedPackageMarker>,
) -> (r: bool)
    ensures
        r == (installed_matches && match source_marker {
            None => true,
            Some(s) => match target_marker {
                None => false,
                Some(t) => spec_markers_equal(*t, *s),
            },
        }),
{
    if !installed_matches {
        return false;
    }
    match source_marker {
        None => true,
        Some(s) => match target_marker {
            None => false,
            Some(t) => markers_equal(t, s),
        },
    }
}

pub open spec fn spec_markers_equal(a: ExtractedPackageMarker, b: ExtractedPackageMarker) -> bool {
    a.schema_version == b.schema_version && a.name@ == b.name@ && a.version@ == b.version@
        && opt_string_view(a.integrity) == opt_string_view(b.integrity) && a.tarball_sha256@
        == b.tarball_sha256@ && a.file_count == b.file_count && a.unpacked_size == b.unpacked_size
        && a.file_tree_sha256@ == b.file_tree_sha256@
}

/// How many times a publish that races other installers is attempted.
pub const PUBLISH_RACE_ATTEMPTS: usize = 4;

/// The next move of a publish after a conflict.
#[derive(Debug, Clone, Copy, PartialEq, Eq, Structural)]
pub enum PublishStep {
    /// Another installer published a matching root: keep it.
    KeepWinner,
    /// Try again (remove what is there, then rename).
    Retry,
    /// Attempts are exhausted: fail with the last error.
    GiveUp,
}

/// After a rename lost to a root another installer published: a winner
/// whose marker is current for ours is kept; otherwise the attempt that
/// just failed (`attempt`, from 0) is retried while attempts remain.
pub fn after_publish_conflict(
    attempt: usize,
    winner_marker: Option<&ExtractedPackageMarker>,
    expected: &ExtractedPackageMarker,
) -> (r: PublishStep)
    ensures
        (winner_marker matches Some(m) && spec_marker_current(*m, *expected)) ==> r
            == PublishStep::KeepWinner,
        !(winner_marker matches Some(m) && spec_marker_current(*m, *expected)) ==> r == (if attempt
            + 1 < PUBLISH_RACE_ATTEMPTS {
            PublishStep::Retry
        } else {
            PublishStep::GiveUp
        }),
{
    if let Some(m) = winner_marker {
        if marker_current(m, expected) {
            return PublishStep::KeepWinner;
        }
    }
    after_publish_failure(attempt)
}

/// After the stale root could not be removed: retry while attempts remain.
pub fn after_publish_failure(attempt: usize) -> (r: PublishStep)
    ensures
        r == (if attempt + 1 < PUBLISH_RACE_ATTEMPTS {
            PublishStep::Retry
        } else {
            PublishStep::GiveUp
        }),
{
    if attempt < PUBLISH_RACE_ATTEMPTS - 1 {
        PublishStep::Retry
    } else {
        PublishStep::GiveUp
    }
}

/// The directory holding an extracted package: `package` when it is a
/// directory, else the first directory listed, if any. `entries` lists the
/// extraction root's entries by name, each with whether it is a directory.
pub fn locate_package_dir(package_is_dir: bool, entries: &Vec<(String, bool)>) -> (r: Option<String>)
    ensures
        package_is_dir ==> (r matches Some(s) && s@ == "package"@),
        !package_is_dir ==> match r {
            Some(s) => exists|k: int|
                0 <= k < entries.len() && entries@[k].1 && entries@[k].0@ == s@ && forall|j: int|
                    0 <= j < k ==> !(#[trigger] entries@[j]).1,
            None => forall|k: int| 0 <= k < entries.len() ==> !(#[trigger] entries@[k]).1,
        },
{
    if package_is_dir {
        return Some(crate::text::str_to_string("package"));
    }
    let mut i: usize = 0;
    while i < entries.len()
        invariant
            i <= entries.len(),
            !package_is_dir,
            forall|j: int| 0 <= j < i ==> !(#[trigger] entries@[j]).1,
        decreases entries.len() - i,
    {
        if entries[i].1 {
            return Some(crate::text::str_to_string(entries[i].0.as_str()));
        }
        i = i + 1;
    }
    None
}

} // verus!
