//! Narrowing a resolved graph to the packages that still need work.

use vstd::prelude::*;
use crate::env_config::{is_word, opt_view, spec_u64_setting, u64_setting};
use crate::install::plan::{contains_id, ids_contain};
use crate::text::{ascii_lower, str_chars, to_ascii_lowercase, trim, trim_chars};
use crate::types::{PackageId, ResolvedGraph, ResolvedPackage};

verus! {

fn clone_ids(ids: &Vec<PackageId>) -> (r: Vec<PackageId>)
    ensures
        r@ == ids@,
{
    let mut out: Vec<PackageId> = Vec::new();
    let mut i: usize = 0;
    while i < ids.len()
        invariant
            i <= ids.len(),
            out@ == ids@.take(i as int),
        decreases ids.len() - i,
    {
        out.push(ids[i].clone_id());
        proof {
            assert(ids@.take(i + 1) == ids@.take(i as int).push(ids@[i as int]));
        }
        i = i + 1;
    }
    proof {
        assert(ids@.take(ids.len() as int) == ids@);
    }
    out
}

/// Two packages with equal fields (lists compared by their elements).
pub open spec fn same_package(a: ResolvedPackage, b: ResolvedPackage) -> bool {
    &&& a.id == b.id
    &&& a.integrity == b.integrity
    &&& a.tarball_url == b.tarball_url
    &&& a.deps@ == b.deps@
    &&& a.peer_deps@ == b.peer_deps@
    &&& a.direct == b.direct
    &&& a.dev == b.dev
}

/// Two package lists of equal length whose packages agree position by
/// position.
pub open spec fn same_packages(a: Seq<ResolvedPackage>, b: Seq<ResolvedPackage>) -> bool {
    a.len() == b.len() && forall|i: int| 0 <= i < a.len() ==> #[trigger] same_package(a[i], b[i])
}

impl ResolvedPackage {
    /// A copy of the package.
    pub fn clone_package(&self) -> (r: ResolvedPackage)
        ensures
            same_package(r, *self),
    {
        let deps = clone_ids(&self.deps);
        let peer_deps = clone_ids(&self.peer_deps);
        let r = ResolvedPackage {
            id: self.id.clone_id(),
            integrity: self.integrity.clone(),
            tarball_url: self.tarball_url.clone(),
            deps,
            peer_deps,
            direct: self.direct,
            dev: self.dev,
        };
        r
    }
}

/// The packages of `packages` whose id is not among `excluded`, in order.
pub open spec fn without_ids(packages: Seq<ResolvedPackage>, excluded: Seq<PackageId>) -> Seq<
    ResolvedPackage,
> {
    packages.filter(|p: ResolvedPackage| !contains_id(excluded, p.id))
}

/// The graph without the packages whose ids are in `excluded` (those already
/// present in the virtual store), the rest kept in order.
pub fn graph_without_packages(graph: &ResolvedGraph, excluded: &Vec<PackageId>) -> (r: ResolvedGraph)
    ensures
        same_packages(r.packages@, without_ids(graph.packages@, excluded@)),
{
    let ghost pred = |p: ResolvedPackage| !contains_id(excluded@, p.id);
    let mut kept: Vec<ResolvedPackage> = Vec::new();
    let mut i: usize = 0;
    while i < graph.packages.len()
        invariant
            i <= graph.packages.len(),
            pred == (|p: ResolvedPackage| !contains_id(excluded@, p.id)),
            same_packages(kept@, graph.packages@.take(i as int).filter(pred)),
        decreases graph.packages.len() - i,
    {
        let pkg = &graph.packages[i];
        let ghost prefix = graph.packages@.take(i as int);
        proof {
            let next = graph.packages@.take(i + 1);
            assert(next.drop_last() == prefix);
            assert(next.last() == graph.packages@[i as int]);
            reveal_with_fuel(Seq::filter, 2);
            assert(next.filter(pred) == (if pred(next.last()) {
                prefix.filter(pred).push(next.last())
            } else {
                prefix.filter(pred)
            }));
        }
        if !ids_contain(excluded, &pkg.id) {
            kept.push(pkg.clone_package());
        }
        i = i + 1;
    }
    proof {
        assert(graph.packages@.take(graph.packages.len() as int) == graph.packages@);
    }
    ResolvedGraph { packages: kept }
}

/// How the strict layout places package files in the virtual store.
#[derive(Debug, Clone, Copy, PartialEq, Eq, Structural)]
pub enum StrictTreeLinkMode {
    Hardlink,
    Symlink,
}

/// `MAGICORE_WEB_STRICT_TREE_MODE`: `symlink`, `link` or `fast` (trimmed,
/// any case) choose symlinks; anything else, or no value, hard links.
pub open spec fn spec_strict_tree_link_mode(raw: Option<Seq<char>>) -> StrictTreeLinkMode {
    let v = match raw {
        Some(r) => ascii_lower(trim(r)),
        None => Seq::empty(),
    };
    if v == seq!['s', 'y', 'm', 'l', 'i', 'n', 'k'] || v == seq!['l', 'i', 'n', 'k'] || v == seq![
        'f',
        'a',
        's',
        't',
    ] {
        StrictTreeLinkMode::Symlink
    } else {
        StrictTreeLinkMode::Hardlink
    }
}

pub fn strict_tree_link_mode(raw: Option<&str>) -> (r: StrictTreeLinkMode)
    ensures
        r == spec_strict_tree_link_mode(opt_view(raw)),
{
    match raw {
        None => {
            proof {
                let e = Seq::<char>::empty();
                assert(e.len() == 0);
                assert(e != seq!['s', 'y', 'm', 'l', 'i', 'n', 'k']);
                assert(e != seq!['l', 'i', 'n', 'k']);
                assert(e != seq!['f', 'a', 's', 't']);
            }
            StrictTreeLinkMode::Hardlink
        },
        Some(s) => {
            let v = to_ascii_lowercase(&trim_chars(&str_chars(s)));
            let symlink = ['s', 'y', 'm', 'l', 'i', 'n', 'k'];
            let link = ['l', 'i', 'n', 'k'];
            let fast = ['f', 'a', 's', 't'];
            proof {
                assert(symlink@ == seq!['s', 'y', 'm', 'l', 'i', 'n', 'k']);
                assert(link@ == seq!['l', 'i', 'n', 'k']);
                assert(fast@ == seq!['f', 'a', 's', 't']);
            }
            if is_word(&v, &symlink) || is_word(&v, &link) || is_word(&v, &fast) {
                StrictTreeLinkMode::Symlink
            } else {
                StrictTreeLinkMode::Hardlink
            }
        },
    }
}

/// Hard-link workers when nothing is configured: the machine's parallelism
/// held to 1..=6, or 2 when it is unknown.
pub open spec fn spec_default_hardlink_threads(available_parallelism: Option<usize>) -> usize {
    match available_parallelism {
        Some(n) => if n < 1 {
            1
        } else if n > 6 {
            6
        } else {
            n
        },
        None => 2,
    }
}

pub fn default_hardlink_threads(available_parallelism: Option<usize>) -> (r: usize)
    ensures
        r == spec_default_hardlink_threads(available_parallelism),
        1 <= r <= 6,
{
    match available_parallelism {
        Some(n) => if n < 1 {
            1
        } else if n > 6 {
            6
        } else {
            n
        },
        None => 2,
    }
}

/// `MAGICORE_WEB_HARDLINK_THREADS`: a positive count that fits in `usize`,
/// else the default.
pub open spec fn spec_hardlink_thread_count(raw: Option<Seq<char>>, available_parallelism: Option<
    usize,
>) -> usize {
    let n = spec_u64_setting(raw, 0);
    if 0 < n && n <= usize::MAX {
        n as usize
    } else {
        spec_default_hardlink_threads(available_parallelism)
    }
}

pub fn hardlink_thread_count(raw: Option<&str>, available_parallelism: Option<usize>) -> (r: usize)
    ensures
        r == spec_hardlink_thread_count(opt_view(raw), available_parallelism),
        r >= 1,
{
    let n = u64_setting(raw, 0);
    if 0 < n && n <= usize::MAX as u64 {
        n as usize
    } else {
        default_hardlink_threads(available_parallelism)
    }
}

} // verus!
