//! How an updated dependency range is written back to `package.json`.

use vstd::prelude::*;
use crate::lockfile::{LockPackage, WebLockfile};
use crate::native::npm_registry::{PackageMetadata, lookup_entry, spec_lookup};
use crate::provider::{highest_among, newest_matching};
use crate::text::{chars_eq, chars_starts_with, starts_with, str_chars, str_to_string, string_append};

verus! {

/// The range saved for `latest`: a caret or tilde range keeps its operator;
/// `*`, an empty range and lower-bound ranges (`>=`, `>`, `<=`) become a
/// caret range; anything else pins `latest` exactly.
pub open spec fn spec_preferred_saved_range(current: Seq<char>, latest: Seq<char>) -> Seq<char> {
    if starts_with(current, "^"@) {
        "^"@ + latest
    } else if starts_with(current, "~"@) {
        "~"@ + latest
    } else if current == "*"@ || current.len() == 0 || starts_with(current, ">="@) || starts_with(
        current,
        ">"@,
    ) || starts_with(current, "<="@) {
        "^"@ + latest
    } else {
        latest
    }
}

/// See [`spec_preferred_saved_range`]; the text is then parsed as a range
/// by the caller.
pub fn preferred_saved_range(current: &str, latest: &str) -> (r: String)
    ensures
        r@ == spec_preferred_saved_range(current@, latest@),
{
    let c = str_chars(current);
    if chars_starts_with(&c, &str_chars("^")) {
        let mut s = str_to_string("^");
        string_append(&mut s, latest);
        return s;
    }
    if chars_starts_with(&c, &str_chars("~")) {
        let mut s = str_to_string("~");
        string_append(&mut s, latest);
        return s;
    }
    if chars_eq(&c, &str_chars("*")) || c.len() == 0 || chars_starts_with(&c, &str_chars(">="))
        || chars_starts_with(&c, &str_chars(">")) || chars_starts_with(&c, &str_chars("<=")) {
        let mut s = str_to_string("^");
        string_append(&mut s, latest);
        return s;
    }
    str_to_string(latest)
}

/// A parsed version of a registry document: its text, whether it is a
/// prerelease, and its rank in semver order (a higher rank is newer).
#[derive(Debug, Clone)]
pub struct VersionFacts {
    pub text: String,
    pub prerelease: bool,
    pub rank: u64,
}

pub open spec fn facts_ranks(vs: Seq<VersionFacts>) -> Seq<u64> {
    vs.map_values(|v: VersionFacts| v.rank)
}

/// `i` is the newest of the versions that `keep` admits.
pub open spec fn newest_of(vs: Seq<VersionFacts>, keep: spec_fn(int) -> bool, i: int) -> bool {
    0 <= i < vs.len() && highest_among(facts_ranks(vs), |j: int| 0 <= j < vs.len() && keep(j), i)
}

/// The version a registry document prefers, given its parsed versions and,
/// when its `latest` tag parses as a stable version, that version's text:
/// that version; else the newest stable version; else the `latest` tag as
/// written; else the newest version; none for an empty document.
pub open spec fn preferred_version_ok(
    meta: PackageMetadata,
    latest_stable: Option<Seq<char>>,
    vs: Seq<VersionFacts>,
    r: Option<Seq<char>>,
) -> bool {
    match latest_stable {
        Some(t) => r == Some(t),
        None => if exists|j: int| 0 <= j < vs.len() && !(#[trigger] vs[j]).prerelease {
            exists|i: int|
                newest_of(vs, |j: int| !vs[j].prerelease, i) && r == Some(#[trigger] vs[i].text@)
        } else {
            match spec_lookup(meta.dist_tags@, "latest"@) {
                Some(tag) => r == Some(tag@),
                None => if vs.len() > 0 {
                    exists|i: int| newest_of(vs, |j: int| true, i) && r == Some(#[trigger] vs[i].text@)
                } else {
                    r.is_none()
                },
            }
        },
    }
}

/// Picks the version a registry document prefers (see
/// [`preferred_version_ok`]). `versions` are the document's versions that
/// parse; `latest_stable` is the `latest` tag's version when it parses and
/// is not a prerelease.
pub fn preferred_registry_version(
    meta: &PackageMetadata,
    latest_stable: Option<&str>,
    versions: &Vec<VersionFacts>,
) -> (r: Option<String>)
    ensures
        preferred_version_ok(
            *meta,
            match latest_stable {
                Some(t) => Some(t@),
                None => None,
            },
            versions@,
            match r {
                Some(s) => Some(s@),
                None => None,
            },
        ),
{
    if let Some(t) = latest_stable {
        return Some(str_to_string(t));
    }
    let mut stable: Vec<bool> = Vec::new();
    let mut all: Vec<bool> = Vec::new();
    let mut ranks: Vec<u64> = Vec::new();
    let mut i: usize = 0;
    while i < versions.len()
        invariant
            i <= versions.len(),
            stable.len() == i,
            all.len() == i,
            ranks@ == facts_ranks(versions@).take(i as int),
            forall|j: int| 0 <= j < i ==> #[trigger] stable@[j] == !versions@[j].prerelease,
            forall|j: int| 0 <= j < i ==> #[trigger] all@[j],
        decreases versions.len() - i,
    {
        stable.push(!versions[i].prerelease);
        all.push(true);
        ranks.push(versions[i].rank);
        proof {
            assert(facts_ranks(versions@).take(i + 1) =~= facts_ranks(versions@).take(i as int).push(
                versions@[i as int].rank,
            ));
        }
        i = i + 1;
    }
    proof {
        assert(facts_ranks(versions@).take(versions.len() as int) =~= facts_ranks(versions@));
    }
    match newest_matching(&stable, &ranks) {
        Some(k) => {
            proof {
                let keep = |j: int| !versions@[j].prerelease;
                assert forall|j: int| 0 <= j < ranks.len() && (|j: int| 0 <= j < versions.len() && keep(j))(j)
                    implies ranks@[j] <= ranks@[k as int] by {
                    assert(stable@[j]);
                    assert((|j: int| 0 <= j < ranks.len() && stable@[j])(j));
                }
                assert(newest_of(versions@, keep, k as int));
            }
            Some(versions[k].text.clone())
        },
        None => {
            proof {
                assert forall|j: int| 0 <= j < versions.len() implies versions@[j].prerelease by {
                    assert(!stable@[j]);
                }
            }
            match lookup_entry(&meta.dist_tags, "latest") {
                Some(tag) => Some(tag.clone()),
                None => match newest_matching(&all, &ranks) {
                    Some(k) => {
                        proof {
                            let keep = |j: int| true;
                            assert forall|j: int| 0 <= j < ranks.len() && (|j: int| 0 <= j < versions.len() && keep(j))(j)
                                implies ranks@[j] <= ranks@[k as int] by {
                                assert(all@[j]);
                                assert((|j: int| 0 <= j < ranks.len() && all@[j])(j));
                            }
                            assert(newest_of(versions@, keep, k as int));
                        }
                        Some(versions[k].text.clone())
                    },
                    None => {
                        proof {
                            if versions.len() > 0 {
                                assert(all@[0]);
                            }
                        }
                        None
                    },
                },
            }
        },
    }
}

/// The first entry of a lock (of any ecosystem) named `name`.
pub open spec fn first_named(ps: Seq<LockPackage>, name: Seq<char>) -> Option<LockPackage>
    decreases ps.len(),
{
    if ps.len() == 0 {
        None
    } else if ps[0].name@ == name {
        Some(ps[0])
    } else {
        first_named(ps.drop_first(), name)
    }
}

/// The version an update reports moving from: the locked version of the
/// package when the lock has an entry for it, else its current range.
pub fn update_from_version(lockfile: Option<&WebLockfile>, name: &str, range: &str) -> (r: String)
    ensures
        r@ == match lockfile {
            Some(l) => match first_named(l.packages@, name@) {
                Some(p) => p.version@,
                None => range@,
            },
            None => range@,
        },
{
    let l = match lockfile {
        Some(l) => l,
        None => return str_to_string(range),
    };
    let target = str_chars(name);
    let mut i: usize = 0;
    proof {
        assert(l.packages@.skip(0) =~= l.packages@);
    }
    while i < l.packages.len()
        invariant
            i <= l.packages.len(),
            target@ == name@,
            lockfile == Some(l),
            first_named(l.packages@.skip(i as int), name@) == first_named(l.packages@, name@),
        decreases l.packages.len() - i,
    {
        proof {
            assert(l.packages@.skip(i as int)[0] == l.packages@[i as int]);
            assert(l.packages@.skip(i as int).drop_first() =~= l.packages@.skip(i + 1));
        }
        if chars_eq(&str_chars(l.packages[i].name.as_str()), &target) {
            proof {
                assert(l.packages@.skip(i as int).len() > 0);
                assert(first_named(l.packages@.skip(i as int), name@) == Some(l.packages@[i as int]));
            }
            let v = str_to_string(l.packages[i].version.as_str());
            return v;
        }
        i = i + 1;
    }
    proof {
        assert(l.packages@.skip(i as int) =~= Seq::<LockPackage>::empty());
    }
    str_to_string(range)
}

} // verus!

