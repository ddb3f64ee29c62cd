//! Supply-chain guards on a resolution: which guards are on, and the
//! quarantine of freshly published versions.

use vstd::prelude::*;
use crate::native::npm_registry::{
    PackageMetadata, age_outcome, check_publish_age, instant_nanos, lookup_entry,
    quarantine_message, rfc3339_instant, spec_lookup,
};
use crate::text::{str_eq, str_to_string, string_append};
use crate::types::PackageId;

verus! {

/// The quarantine applied when the store sets no minimum age: one day.
pub const DEFAULT_QUARANTINE_SECS: u64 = 86400;

/// Which guards a resolution passes through.
#[derive(Debug, Clone, Copy, PartialEq, Eq, Structural)]
pub struct SupplyChainGuards {
    /// Refuse versions younger than `min_age_secs`.
    pub check_publish_age: bool,
    pub min_age_secs: i64,
    /// Refuse a direct dependency whose top-level version goes down.
    pub check_downgrade: bool,
}

/// The guards in effect: the quarantine is on when the 24-hour block or
/// strict audit is set, or when the store configures a minimum age (which
/// then is the minimum, else one day); allowing untrusted packages turns
/// both guards off.
pub fn supply_chain_guards(
    block_24h: bool,
    audit_strict: bool,
    store_min_age: Option<u64>,
    allow_untrusted: bool,
) -> (r: SupplyChainGuards)
    ensures
        r.check_publish_age == ((block_24h || audit_strict || store_min_age.is_some())
            && !allow_untrusted),
        r.min_age_secs == (match store_min_age {
            Some(v) => v,
            None => DEFAULT_QUARANTINE_SECS,
        }) as i64,
        r.check_downgrade == !allow_untrusted,
{
    let block_new = block_24h || audit_strict || store_min_age.is_some();
    let min_age = match store_min_age {
        Some(v) => v,
        None => DEFAULT_QUARANTINE_SECS,
    };
    SupplyChainGuards {
        check_publish_age: block_new && !allow_untrusted,
        min_age_secs: min_age as i64,
        check_downgrade: !allow_untrusted,
    }
}

/// The metadata of a package, by name.
pub open spec fn metadata_of(
    metadata: Seq<(String, PackageMetadata)>,
    name: Seq<char>,
) -> Option<PackageMetadata> {
    spec_lookup(metadata, name)
}

/// A version passes the quarantine: its publish time is missing or does
/// not parse (unknown), or the version was old enough at some instant (the
/// clock's).
pub open spec fn passes_quarantine(meta: PackageMetadata, version: Seq<char>, min_age_secs: i64) -> bool {
    match spec_lookup(meta.time@, version) {
        None => true,
        Some(t) => match rfc3339_instant(t@) {
            Err(_) => true,
            Ok(published) => exists|now: (i64, u32)|
                #[trigger] age_outcome(
                    meta.name@,
                    version,
                    min_age_secs,
                    instant_nanos(published),
                    instant_nanos(now),
                    Ok::<bool, String>(true),
                ),
        },
    }
}

/// `message` is the refusal of `version` by the quarantine: its publish
/// time parses and the version was too young at some instant.
pub open spec fn quarantine_refusal(
    meta: PackageMetadata,
    version: Seq<char>,
    min_age_secs: i64,
    message: Seq<char>,
) -> bool {
    match spec_lookup(meta.time@, version) {
        None => false,
        Some(t) => match rfc3339_instant(t@) {
            Err(_) => false,
            Ok(published) => exists|now: (i64, u32)|
                (instant_nanos(now) - instant_nanos(published)) < min_age_secs * 1000000000
                    && #[trigger] quarantine_message(
                    meta.name@,
                    version,
                    instant_nanos(now) - instant_nanos(published),
                ) == message,
        },
    }
}

/// Checks each resolved package that has metadata against the quarantine,
/// in order, and stops at the first refusal. Packages without metadata are
/// not checked.
pub fn enforce_publish_age(
    resolutions: &Vec<PackageId>,
    metadata: &Vec<(String, PackageMetadata)>,
    min_age_secs: i64,
) -> (r: Result<(), String>)
    ensures
        r is Ok ==> forall|i: int|
            0 <= i < resolutions.len() ==> (#[trigger] metadata_of(metadata@, resolutions@[i].name@)
                matches Some(m) ==> passes_quarantine(m, resolutions@[i].version@, min_age_secs)),
        r matches Err(msg) ==> exists|i: int|
            0 <= i < resolutions.len() && (#[trigger] metadata_of(metadata@, resolutions@[i].name@)
                matches Some(m) && quarantine_refusal(
                m,
                resolutions@[i].version@,
                min_age_secs,
                msg@,
            )),
{
    let mut i: usize = 0;
    while i < resolutions.len()
        invariant
            i <= resolutions.len(),
            forall|k: int|
                0 <= k < i ==> (#[trigger] metadata_of(metadata@, resolutions@[k].name@) matches Some(m)
                    ==> passes_quarantine(m, resolutions@[k].version@, min_age_secs)),
        decreases resolutions.len() - i,
    {
        let id = &resolutions[i];
        match lookup_entry(metadata, id.name.as_str()) {
            Some(meta) => {
                let checked = check_publish_age(meta, id.version.as_str(), min_age_secs);
                match checked {
                    Ok(_) => {
                        proof {
                            assert(metadata_of(metadata@, resolutions@[i as int].name@) == Some(*meta));
                            match spec_lookup(meta.time@, id.version@) {
                                None => {},
                                Some(t) => {
                                    match rfc3339_instant(t@) {
                                        Err(_) => {},
                                        Ok(published) => {
                                            let now = choose|now: (i64, u32)|
                                                #[trigger] age_outcome(
                                                    meta.name@,
                                                    id.version@,
                                                    min_age_secs,
                                                    instant_nanos(published),
                                                    instant_nanos(now),
                                                    checked,
                                                );
                                            assert(age_outcome(
                                                meta.name@,
                                                id.version@,
                                                min_age_secs,
                                                instant_nanos(published),
                                                instant_nanos(now),
                                                Ok::<bool, String>(true),
                                            ));
                                        },
                                    }
                                },
                            }
                        }
                    },
                    Err(msg) => {
                        proof {
                            assert(metadata_of(metadata@, resolutions@[i as int].name@) == Some(*meta));
                            match spec_lookup(meta.time@, id.version@) {
                                None => {},
                                Some(t) => {
                                    match rfc3339_instant(t@) {
                                        Err(_) => {},
                                        Ok(published) => {
                                            let now = choose|now: (i64, u32)|
                                                #[trigger] age_outcome(
                                                    meta.name@,
                                                    id.version@,
                                                    min_age_secs,
                                                    instant_nanos(published),
                                                    instant_nanos(now),
                                                    checked,
                                                );
                                            assert(quarantine_message(
                                                meta.name@,
                                                id.version@,
                                                instant_nanos(now) - instant_nanos(published),
                                            ) == msg@);
                                        },
                                    }
                                },
                            }
                        }
                        return Err(msg);
                    },
                }
            },
            None => {},
        }
        i = i + 1;
    }
    Ok(())
}

/// A direct dependency as the downgrade guard sees it.
#[derive(Debug, Clone)]
pub struct DirectDependency {
    pub name: String,
    /// The manifest range, as written.
    pub range: String,
    /// The previous top-level pin, from a lockfile that satisfies the
    /// manifest: its version text and its rank among versions.
    pub baseline: Option<(String, u64)>,
    /// For each resolution, in order, whether its version satisfies `range`.
    pub matches: Vec<bool>,
}

/// A resolved package with the rank of its version: ranks order versions as
/// semver does, equal versions having equal ranks.
#[derive(Debug, Clone)]
pub struct RankedResolution {
    pub id: PackageId,
    pub rank: u64,
}

/// Whether resolution `j` can link at the top level for `dep`.
pub open spec fn top_candidate(dep: DirectDependency, res: Seq<RankedResolution>, j: int) -> bool {
    &&& res[j].id.name@ == dep.name@
    &&& j < dep.matches@.len()
    &&& dep.matches@[j]
}

/// Among the first `n` resolutions, the candidate with the highest rank (the
/// last such one on ties), as the top-level selection.
pub open spec fn top_selection(dep: DirectDependency, res: Seq<RankedResolution>, n: int) -> Option<
    int,
>
    decreases n,
{
    if n <= 0 {
        None
    } else {
        let prev = top_selection(dep, res, n - 1);
        if top_candidate(dep, res, n - 1) {
            match prev {
                Some(p) => if res[n - 1].rank >= res[p].rank {
                    Some(n - 1)
                } else {
                    Some(p)
                },
                None => Some(n - 1),
            }
        } else {
            prev
        }
    }
}

pub open spec fn no_top_message(name: Seq<char>, range: Seq<char>) -> Seq<char> {
    "\u{1F6A8} SECURITY: no resolved version of direct dep '"@ + name + "' satisfies '"@ + range
        + "' \u{2014} refusing to link an out-of-range top level (fail-closed)"@
}

pub open spec fn downgrade_message(name: Seq<char>, baseline: Seq<char>, selected: Seq<char>) -> Seq<
    char,
> {
    "\u{1F6A8} SECURITY: Downgrade blocked for '"@ + name + "' \u{2014} previous top-level "@ + baseline
        + ", new top-level selection "@ + selected
        + ".\n   Use MAGICORE_ALLOW_UNTRUSTED=1 to override."@
}

/// Why `dep` refuses the resolution, if it does: a dependency with a
/// previous top-level pin needs a top-level selection, and one no lower.
pub open spec fn downgrade_refusal(dep: DirectDependency, res: Seq<RankedResolution>) -> Option<
    Seq<char>,
> {
    match dep.baseline {
        None => None,
        Some(b) => match top_selection(dep, res, res.len() as int) {
            None => Some(no_top_message(dep.name@, dep.range@)),
            Some(t) => if res[t].rank < b.1 {
                Some(downgrade_message(dep.name@, b.0@, res[t].id.version@))
            } else {
                None
            },
        },
    }
}

proof fn lemma_top_selection_bounds(dep: DirectDependency, res: Seq<RankedResolution>, n: int)
    requires
        0 <= n <= res.len(),
    ensures
        top_selection(dep, res, n) matches Some(t) ==> 0 <= t < n && top_candidate(dep, res, t),
    decreases n,
{
    if n > 0 {
        lemma_top_selection_bounds(dep, res, n - 1);
    }
}

/// The top-level selection for `dep`: the index of the highest-ranked
/// resolution of that name whose version satisfies the range.
fn top_level_selection(dep: &DirectDependency, res: &Vec<RankedResolution>) -> (r: Option<usize>)
    ensures
        r matches Some(t) ==> Some(t as int) == top_selection(*dep, res@, res@.len() as int),
        r is None ==> top_selection(*dep, res@, res@.len() as int) is None,
{
    let mut best: Option<usize> = None;
    let mut j: usize = 0;
    while j < res.len()
        invariant
            j <= res.len(),
            match best {
                Some(b) => b < j && top_selection(*dep, res@, j as int) == Some(b as int),
                None => top_selection(*dep, res@, j as int) is None,
            },
        decreases res.len() - j,
    {
        let is_candidate = j < dep.matches.len() && dep.matches[j] && str_eq(
            res[j].id.name.as_str(),
            dep.name.as_str(),
        );
        proof {
            assert(is_candidate == top_candidate(*dep, res@, j as int));
            assert(top_selection(*dep, res@, j + 1) == (if top_candidate(*dep, res@, j as int) {
                match top_selection(*dep, res@, j as int) {
                    Some(p) => if res@[j as int].rank >= res@[p].rank {
                        Some(j as int)
                    } else {
                        Some(p)
                    },
                    None => Some(j as int),
                }
            } else {
                top_selection(*dep, res@, j as int)
            }));
        }
        if is_candidate {
            best = match best {
                Some(b) => if res[j].rank >= res[b].rank {
                    Some(j)
                } else {
                    Some(b)
                },
                None => Some(j),
            };
        }
        j = j + 1;
    }
    best
}

/// The downgrade guard: each direct dependency that had a top-level pin must
/// still link a version satisfying its range at the top level, and that
/// version may not rank below the previous pin. The first dependency, in
/// order, that fails gives the error.
pub fn enforce_no_downgrade(deps: &Vec<DirectDependency>, resolutions: &Vec<RankedResolution>) -> (r:
    Result<(), String>)
    ensures
        r is Ok <==> forall|i: int| 0 <= i < deps.len() ==> #[trigger] downgrade_refusal(deps@[i], resolutions@) is None,
        r matches Err(msg) ==> exists|i: int|
            0 <= i < deps.len() && #[trigger] downgrade_refusal(deps@[i], resolutions@) == Some(msg@)
                && forall|k: int| 0 <= k < i ==> #[trigger] downgrade_refusal(deps@[k], resolutions@) is None,
{
    let mut i: usize = 0;
    while i < deps.len()
        invariant
            i <= deps.len(),
            forall|k: int| 0 <= k < i ==> #[trigger] downgrade_refusal(deps@[k], resolutions@) is None,
        decreases deps.len() - i,
    {
        let dep = &deps[i];
        match &dep.baseline {
            None => {},
            Some((baseline_text, baseline_rank)) => {
                let top = top_level_selection(dep, resolutions);
                match top {
                    None => {
                        let mut msg = str_to_string(
                            "\u{1F6A8} SECURITY: no resolved version of direct dep '",
                        );
                        string_append(&mut msg, dep.name.as_str());
                        string_append(&mut msg, "' satisfies '");
                        string_append(&mut msg, dep.range.as_str());
                        string_append(
                            &mut msg,
                            "' \u{2014} refusing to link an out-of-range top level (fail-closed)",
                        );
                        proof {
                            assert(msg@ =~= no_top_message(dep.name@, dep.range@));
                            assert(downgrade_refusal(deps@[i as int], resolutions@) == Some(msg@));
                        }
                        return Err(msg);
                    },
                    Some(t) => {
                        proof {
                            lemma_top_selection_bounds(*dep, resolutions@, resolutions@.len() as int);
                        }
                        if resolutions[t].rank < *baseline_rank {
                            let mut msg = str_to_string(
                                "\u{1F6A8} SECURITY: Downgrade blocked for '",
                            );
                            string_append(&mut msg, dep.name.as_str());
                            string_append(&mut msg, "' \u{2014} previous top-level ");
                            string_append(&mut msg, baseline_text.as_str());
                            string_append(&mut msg, ", new top-level selection ");
                            string_append(&mut msg, resolutions[t].id.version.as_str());
                            string_append(
                                &mut msg,
                                ".\n   Use MAGICORE_ALLOW_UNTRUSTED=1 to override.",
                            );
                            proof {
                                assert(msg@ =~= downgrade_message(
                                    dep.name@,
                                    baseline_text@,
                                    resolutions@[t as int].id.version@,
                                ));
                                assert(downgrade_refusal(deps@[i as int], resolutions@) == Some(msg@));
                            }
                            return Err(msg);
                        }
                    },
                }
            },
        }
        i = i + 1;
    }
    Ok(())
}

/// With no previous top-level pins (a fresh install, or a lockfile that no
/// longer satisfies the manifest) there is nothing to regress from: the
/// downgrade guard passes whatever was resolved.
pub proof fn law_fresh_install_passes_downgrade_guard(
    deps: Seq<DirectDependency>,
    resolutions: Seq<RankedResolution>,
)
    requires
        forall|i: int| 0 <= i < deps.len() ==> (#[trigger] deps[i]).baseline is None,
    ensures
        forall|i: int| 0 <= i < deps.len() ==> #[trigger] downgrade_refusal(deps[i], resolutions) is None,
{
}

} // verus!
