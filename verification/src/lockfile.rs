//! The web entries of the shared project lockfile: which entries belong to
//! this adapter, whether a lock already records a resolved graph, and how a
//! new graph replaces this core's entries.

use vstd::prelude::*;
use crate::install::integrity::{compute_tarball_integrity, spec_tarball_integrity};
use crate::paths::{join, path_join};
use crate::text::{
    opt_string_view,
    ascii_lower, chars_eq, str_chars, str_to_string, string_append, string_from_chars, strings_view,
    to_ascii_lowercase, trim, trim_chars,
};
use crate::types::{PackageId, ResolvedGraph, ResolvedPackage};

verus! {

/// `<project>/.magicore/cache/web`.
pub fn project_cache_dir(project_root: &str) -> (r: String)
    ensures
        r@ == path_join(path_join(path_join(project_root@, ".magicore"@), "cache"@), "web"@),
{
    let a = join(project_root, ".magicore");
    let b = join(a.as_str(), "cache");
    join(b.as_str(), "web")
}

/// The ecosystem a lock entry is tagged with.
#[derive(Debug, Clone, Copy, PartialEq, Eq, Structural)]
pub enum EcosystemTag {
    Web,
    /// Untagged: entries of version-2 locks, which were all web entries.
    Other,
    /// Any other named ecosystem.
    Foreign,
}

/// One entry of the shared lockfile.
#[derive(Debug, Clone)]
pub struct LockPackage {
    pub owner_core: Option<String>,
    pub name: String,
    pub version: String,
    pub resolved: String,
    pub integrity: String,
    pub dependencies: Vec<String>,
    pub ecosystem: EcosystemTag,
    pub registry: Option<String>,
}

/// The shared lockfile's schema version and entries.
#[derive(Debug, Clone)]
pub struct WebLockfile {
    pub version: String,
    pub packages: Vec<LockPackage>,
}

/// The lock schema version this adapter writes.
pub open spec fn current_lock_version() -> Seq<char> {
    seq!['3']
}

pub open spec fn legacy_lock_version() -> Seq<char> {
    seq!['2']
}

/// Version-2 locks predate ecosystem tags and were web-only; from version
/// 3 on, only entries tagged web belong to this adapter.
pub open spec fn spec_is_web_lock_package(lock_version: Seq<char>, ecosystem: EcosystemTag) -> bool {
    ecosystem == EcosystemTag::Web || (lock_version == legacy_lock_version() && ecosystem
        == EcosystemTag::Other)
}

fn is_legacy(version: &str) -> (r: bool)
    ensures
        r == (version@ == legacy_lock_version()),
{
    let v = str_chars(version);
    let mut two: Vec<char> = Vec::new();
    two.push('2');
    proof {
        assert(two@ == legacy_lock_version());
    }
    chars_eq(&v, &two)
}

fn is_current(version: &str) -> (r: bool)
    ensures
        r == (version@ == current_lock_version()),
{
    let v = str_chars(version);
    let mut three: Vec<char> = Vec::new();
    three.push('3');
    proof {
        assert(three@ == current_lock_version());
    }
    chars_eq(&v, &three)
}

pub fn is_web_lock_package(lockfile: &WebLockfile, package: &LockPackage) -> (r: bool)
    ensures
        r == spec_is_web_lock_package(lockfile.version@, package.ecosystem),
{
    package.ecosystem == EcosystemTag::Web || (is_legacy(lockfile.version.as_str())
        && package.ecosystem == EcosystemTag::Other)
}

/// An entry stays visible to the core `owner`: entries of other ecosystems,
/// web entries owned by `owner`, unowned web entries when `owner` is the web
/// core itself, and, in a version-2 lock read by the web core, untagged
/// entries.
pub open spec fn spec_visible_to(
    lock_version: Seq<char>,
    owner: Seq<char>,
    p: (EcosystemTag, Option<Seq<char>>),
) -> bool {
    p.0 != EcosystemTag::Web || p.1 == Some(owner) || (owner == "web"@ && p.1.is_none()) || (
    lock_version == legacy_lock_version() && owner == "web"@ && p.0 == EcosystemTag::Other)
}

pub open spec fn entry_key(p: LockPackage) -> (EcosystemTag, Option<Seq<char>>) {
    (p.ecosystem, opt_string_view(p.owner_core))
}

fn is_web_owner(owner: &str) -> (r: bool)
    ensures
        r == (owner@ == "web"@),
{
    let o = str_chars(owner);
    let web = str_chars("web");
    proof {
        reveal_strlit("web");
    }
    chars_eq(&o, &web)
}

fn owned_by(p: &LockPackage, owner: &str) -> (r: bool)
    ensures
        r == (opt_string_view(p.owner_core) == Some(owner@)),
{
    match &p.owner_core {
        Some(o) => chars_eq(&str_chars(o.as_str()), &str_chars(owner)),
        None => false,
    }
}

/// The entries of `ps` visible to `owner` (see [`spec_visible_to`]), in order.
pub open spec fn visible_entries(ps: Seq<LockPackage>, v: Seq<char>, owner: Seq<char>) -> Seq<LockPackage>
    decreases ps.len(),
{
    if ps.len() == 0 {
        Seq::empty()
    } else {
        let r = visible_entries(ps.drop_last(), v, owner);
        if spec_visible_to(v, owner, entry_key(ps.last())) {
            r.push(ps.last())
        } else {
            r
        }
    }
}

/// Keeps only the entries visible to the core `owner_core` (see
/// [`spec_visible_to`]), in their order.
pub fn scope_web_lock_packages(lockfile: &mut WebLockfile, owner_core: &str)
    ensures
        final(lockfile).version == old(lockfile).version,
        final(lockfile).packages@ == visible_entries(
            old(lockfile).packages@,
            old(lockfile).version@,
            owner_core@,
        ),
{
    let web_owner = is_web_owner(owner_core);
    let legacy_web_lock = is_legacy(lockfile.version.as_str()) && web_owner;
    let ghost v = lockfile.version@;
    let ghost orig = lockfile.packages@;
    let n = lockfile.packages.len();
    let mut rest: Vec<LockPackage> = Vec::new();
    std::mem::swap(&mut rest, &mut lockfile.packages);
    let mut kept: Vec<LockPackage> = Vec::new();
    let mut i: usize = 0;
    proof {
        assert(orig.skip(0) =~= orig);
        assert(orig.take(0) =~= Seq::<LockPackage>::empty());
    }
    while rest.len() > 0
        invariant
            i <= orig.len(),
            v == lockfile.version@,
            legacy_web_lock == (v == legacy_lock_version() && owner_core@ == "web"@),
            web_owner == (owner_core@ == "web"@),
            rest@ == orig.skip(i as int),
            rest.len() == orig.len() - i,
            orig.len() == n,
            kept@ == visible_entries(orig.take(i as int), v, owner_core@),
        decreases rest.len(),
    {
        let p = rest.remove(0);
        proof {
            assert(p == orig[i as int]);
            assert(orig.take(i + 1).drop_last() =~= orig.take(i as int));
            assert(orig.take(i + 1).last() == p);
            assert(rest@ =~= orig.skip(i + 1));
        }
        let keep = p.ecosystem != EcosystemTag::Web || owned_by(&p, owner_core) || (web_owner
            && p.owner_core.is_none()) || (legacy_web_lock && p.ecosystem == EcosystemTag::Other);
        proof {
            assert(keep == spec_visible_to(v, owner_core@, entry_key(p)));
        }
        if keep {
            kept.push(p);
        }
        i = i + 1;
    }
    proof {
        assert(orig.take(i as int) =~= orig);
    }
    lockfile.packages = kept;
}


/// The entries of `ps` that belong to this adapter (see
/// [`spec_is_web_lock_package`]), in order.
pub open spec fn web_entries(ps: Seq<LockPackage>, v: Seq<char>) -> Seq<LockPackage>
    decreases ps.len(),
{
    if ps.len() == 0 {
        Seq::empty()
    } else {
        let r = web_entries(ps.drop_last(), v);
        if spec_is_web_lock_package(v, ps.last().ecosystem) {
            r.push(ps.last())
        } else {
            r
        }
    }
}

/// `name@version`, as a dependency is written in the lock.
pub open spec fn dep_string(id: PackageId) -> Seq<char> {
    id.name@ + "@"@ + id.version@
}

pub open spec fn deps_match(locked: Seq<Seq<char>>, resolved: Seq<PackageId>) -> bool {
    locked.len() == resolved.len() && forall|i: int|
        0 <= i < locked.len() ==> #[trigger] locked[i] == dep_string(resolved[i])
}

/// A lock entry records a resolved package: same name, version and
/// dependencies, and the same integrity when the package has one.
pub open spec fn entry_matches(l: LockPackage, r: ResolvedPackage) -> bool {
    &&& l.name@ == r.id.name@
    &&& l.version@ == r.id.version@
    &&& deps_match(strings_view(l.dependencies@), r.deps@)
    &&& (r.integrity@.len() == 0 || l.integrity@ == r.integrity@)
}

/// A lock (of schema 2 or 3) records the graph when its web entries match
/// the graph's packages one for one, in order.
pub open spec fn spec_matches_graph(version: Seq<char>, ps: Seq<LockPackage>, graph: Seq<ResolvedPackage>) -> bool {
    &&& (version == legacy_lock_version() || version == current_lock_version())
    &&& web_entries(ps, version).len() == graph.len()
    &&& forall|i: int|
        0 <= i < graph.len() ==> #[trigger] entry_matches(web_entries(ps, version)[i], graph[i])
}

fn dep_string_of(id: &PackageId) -> (r: Vec<char>)
    ensures
        r@ == dep_string(*id),
{
    let mut s = str_to_string(id.name.as_str());
    string_append(&mut s, "@");
    string_append(&mut s, id.version.as_str());
    str_chars(s.as_str())
}

fn entry_matches_exec(l: &LockPackage, r: &ResolvedPackage) -> (b: bool)
    ensures
        b == entry_matches(*l, *r),
{
    if !chars_eq(&str_chars(l.name.as_str()), &str_chars(r.id.name.as_str())) {
        return false;
    }
    if !chars_eq(&str_chars(l.version.as_str()), &str_chars(r.id.version.as_str())) {
        return false;
    }
    if l.dependencies.len() != r.deps.len() {
        return false;
    }
    let mut i: usize = 0;
    while i < l.dependencies.len()
        invariant
            i <= l.dependencies.len(),
            l.dependencies.len() == r.deps.len(),
            forall|k: int|
                0 <= k < i ==> #[trigger] strings_view(l.dependencies@)[k] == dep_string(r.deps@[k]),
        decreases l.dependencies.len() - i,
    {
        if !chars_eq(&str_chars(l.dependencies[i].as_str()), &dep_string_of(&r.deps[i])) {
            proof {
                assert(strings_view(l.dependencies@)[i as int] != dep_string(r.deps@[i as int]));
            }
            return false;
        }
        i = i + 1;
    }
    if r.integrity.as_str().is_empty() {
        return true;
    }
    chars_eq(&str_chars(l.integrity.as_str()), &str_chars(r.integrity.as_str()))
}

/// Whether the lock already records `graph` (see [`spec_matches_graph`]).
pub fn web_lockfile_matches_graph(lockfile: &WebLockfile, graph: &ResolvedGraph) -> (r: bool)
    ensures
        r == spec_matches_graph(lockfile.version@, lockfile.packages@, graph.packages@),
        r ==> records_graph(web_entries(lockfile.packages@, lockfile.version@), graph.packages@),
{
    let r = web_lockfile_matches_graph_impl(lockfile, graph);
    proof {
        law_matching_lock_records_graph(lockfile.version@, lockfile.packages@, graph.packages@);
    }
    r
}

/// A lock entry records a package: its name and version, its dependencies
/// written as `name@version` in order, and its integrity whenever the
/// package has one.
pub open spec fn entry_records(e: LockPackage, p: ResolvedPackage) -> bool {
    &&& e.name@ == p.id.name@
    &&& e.version@ == p.id.version@
    &&& (p.integrity@.len() > 0 ==> e.integrity@ == p.integrity@)
    &&& e.dependencies@.len() == p.deps@.len()
    &&& forall|k: int|
        0 <= k < p.deps@.len() ==> (#[trigger] e.dependencies@[k])@ == p.deps@[k].name@ + "@"@
            + p.deps@[k].version@
}

/// The lock's entries record the graph: one entry per package, in order.
pub open spec fn records_graph(entries: Seq<LockPackage>, graph: Seq<ResolvedPackage>) -> bool {
    &&& entries.len() == graph.len()
    &&& forall|i: int| 0 <= i < graph.len() ==> entry_records(#[trigger] entries[i], graph[i])
}

/// A lock that is taken as up to date records exactly the resolved graph:
/// every web entry has the name, version and dependencies of the package at
/// its position, and its integrity when the package has one; so a lock
/// whose entry records another version (or misses a package, or has one
/// too many) is never taken as up to date.
pub proof fn law_matching_lock_records_graph(version: Seq<char>, ps: Seq<LockPackage>, graph: Seq<ResolvedPackage>)
    ensures
        spec_matches_graph(version, ps, graph) ==> records_graph(web_entries(ps, version), graph),
{
    if spec_matches_graph(version, ps, graph) {
        let w = web_entries(ps, version);
        assert forall|i: int| 0 <= i < graph.len() implies entry_records(#[trigger] w[i], graph[i]) by {
            assert(entry_matches(w[i], graph[i]));
            assert forall|k: int| 0 <= k < graph[i].deps@.len() implies (#[trigger] w[i].dependencies@[k])@
                == graph[i].deps@[k].name@ + "@"@ + graph[i].deps@[k].version@ by {
                assert(strings_view(w[i].dependencies@)[k] == w[i].dependencies@[k]@);
            }
        }
    }
}

fn web_lockfile_matches_graph_impl(lockfile: &WebLockfile, graph: &ResolvedGraph) -> (r: bool)
    ensures
        r == spec_matches_graph(lockfile.version@, lockfile.packages@, graph.packages@),
{
    let v = lockfile.version.as_str();
    if !is_legacy(v) && !is_current(v) {
        return false;
    }
    let ghost ps = lockfile.packages@;
    let ghost w = web_entries(ps, lockfile.version@);
    let mut matched: usize = 0;
    let mut i: usize = 0;
    while i < lockfile.packages.len()
        invariant
            i <= lockfile.packages.len(),
            ps == lockfile.packages@,
            w == web_entries(ps, lockfile.version@),
            matched == web_entries(ps.take(i as int), lockfile.version@).len(),
            matched <= graph.packages.len(),
            forall|k: int|
                0 <= k < matched ==> #[trigger] entry_matches(
                    web_entries(ps.take(i as int), lockfile.version@)[k],
                    graph.packages@[k],
                ),
        decreases lockfile.packages.len() - i,
    {
        let p = &lockfile.packages[i];
        proof {
            assert(ps.take(i + 1).drop_last() =~= ps.take(i as int));
            assert(ps.take(i + 1).last() == *p);
            lemma_web_entries_prefix(ps, lockfile.version@, i + 1);
        }
        if is_web_lock_package(lockfile, p) {
            if matched >= graph.packages.len() {
                proof {
                    lemma_web_entries_prefix_len(ps, lockfile.version@, i + 1);
                }
                return false;
            }
            if !entry_matches_exec(p, &graph.packages[matched]) {
                proof {
                    lemma_web_entries_prefix_len(ps, lockfile.version@, i + 1);
                    lemma_web_entries_prefix(ps, lockfile.version@, i + 1);
                    assert(web_entries(ps.take(i + 1), lockfile.version@) == web_entries(
                        ps.take(i as int),
                        lockfile.version@,
                    ).push(*p));
                    assert(web_entries(ps.take(i + 1), lockfile.version@)[matched as int] == *p);
                    assert(w[matched as int] == *p);
                    if w.len() == graph.packages.len() {
                        assert(!entry_matches(w[matched as int], graph.packages@[matched as int]));
                    }
                }
                return false;
            }
            matched = matched + 1;
        }
        i = i + 1;
    }
    proof {
        assert(ps.take(lockfile.packages.len() as int) =~= ps);
    }
    matched == graph.packages.len()
}

/// `web_entries` of a prefix is a prefix of `web_entries`.
proof fn lemma_web_entries_prefix(ps: Seq<LockPackage>, v: Seq<char>, n: int)
    requires
        0 <= n <= ps.len(),
    ensures
        web_entries(ps.take(n), v).len() <= web_entries(ps, v).len(),
        forall|k: int|
            0 <= k < web_entries(ps.take(n), v).len() ==> #[trigger] web_entries(ps.take(n), v)[k]
                == web_entries(ps, v)[k],
    decreases ps.len(),
{
    if n < ps.len() {
        assert(ps.drop_last().take(n) =~= ps.take(n));
        lemma_web_entries_prefix(ps.drop_last(), v, n);
    } else {
        assert(ps.take(n) =~= ps);
    }
}

/// Entries after a web entry add to the count: a prefix ending in a web
/// entry has fewer web entries than the whole only if more follow.
proof fn lemma_web_entries_prefix_len(ps: Seq<LockPackage>, v: Seq<char>, n: int)
    requires
        0 <= n <= ps.len(),
    ensures
        web_entries(ps.take(n), v).len() <= web_entries(ps, v).len(),
    decreases ps.len(),
{
    lemma_web_entries_prefix(ps, v, n);
}

/// `cloud` is spelled `clo` among core names; names are compared trimmed and
/// lower-cased.
pub open spec fn spec_canonical_core_name(value: Seq<char>) -> Seq<char> {
    let core = ascii_lower(trim(value));
    if core == "cloud"@ {
        "clo"@
    } else {
        core
    }
}

pub fn canonical_core_name(value: &str) -> (r: String)
    ensures
        r@ == spec_canonical_core_name(value@),
{
    let core = to_ascii_lowercase(&trim_chars(&str_chars(value)));
    let cloud = str_chars("cloud");
    if chars_eq(&core, &cloud) {
        return str_to_string("clo");
    }
    string_from_chars(&core)
}

/// The core that owns the lock entries written for a project: the core
/// marker when present, else the configured ecosystem's canonical core
/// name, else `web`.
pub open spec fn spec_owner_candidate(marker: Option<Seq<char>>, ecosystem: Option<Seq<char>>) -> Seq<
    char,
> {
    match marker {
        Some(m) => m,
        None => match ecosystem {
            Some(e) => spec_canonical_core_name(e),
            None => "web"@,
        },
    }
}

pub open spec fn unknown_owner_message(owner: Seq<char>) -> Seq<char> {
    "refusing to write lock entries for unknown core owner '"@ + owner + "'"@
}

/// The owner of the lock entries, which must be one of `known_cores`.
pub fn lock_owner_core(marker: Option<&str>, ecosystem: Option<&str>, known_cores: &Vec<String>) -> (r:
    Result<String, String>)
    ensures
        ({
            let owner = spec_owner_candidate(
                crate::env_config::opt_view(marker),
                crate::env_config::opt_view(ecosystem),
            );
            match r {
                Ok(o) => o@ == owner && strings_view(known_cores@).contains(owner),
                Err(e) => e@ == unknown_owner_message(owner) && !strings_view(known_cores@).contains(
                    owner,
                ),
            }
        }),
{
    let owner = match marker {
        Some(m) => str_to_string(m),
        None => match ecosystem {
            Some(e) => canonical_core_name(e),
            None => str_to_string("web"),
        },
    };
    let mut i: usize = 0;
    while i < known_cores.len()
        invariant
            i <= known_cores.len(),
            forall|k: int| 0 <= k < i ==> known_cores@[k]@ != owner@,
            owner@ == spec_owner_candidate(
                crate::env_config::opt_view(marker),
                crate::env_config::opt_view(ecosystem),
            ),
        decreases known_cores.len() - i,
    {
        if crate::text::str_eq(known_cores[i].as_str(), owner.as_str()) {
            proof {
                assert(strings_view(known_cores@)[i as int] == owner@);
            }
            return Ok(owner);
        }
        i = i + 1;
    }
    proof {
        assert forall|k: int| 0 <= k < strings_view(known_cores@).len() implies strings_view(
            known_cores@,
        )[k] != owner@ by {
            assert(strings_view(known_cores@)[k] == known_cores@[k]@);
        }
    }
    let mut msg = str_to_string("refusing to write lock entries for unknown core owner '");
    string_append(&mut msg, owner.as_str());
    string_append(&mut msg, "'");
    Err(msg)
}

pub open spec fn integrity_for(pkg: ResolvedPackage, cached: Option<Seq<u8>>) -> Seq<char> {
    if pkg.integrity@.len() > 0 {
        pkg.integrity@
    } else {
        match cached {
            Some(bytes) => spec_tarball_integrity(bytes),
            None => Seq::empty(),
        }
    }
}

/// The lock entry written for a resolved package, owned by `owner_core`.
pub open spec fn spec_lock_entry(
    pkg: ResolvedPackage,
    owner_core: Seq<char>,
    registry_url: Seq<char>,
    cached: Option<Seq<u8>>,
    e: LockPackage,
) -> bool {
    &&& opt_string_view(e.owner_core) == Some(owner_core)
    &&& e.name@ == pkg.id.name@
    &&& e.version@ == pkg.id.version@
    &&& e.resolved@ == pkg.tarball_url@
    &&& e.integrity@ == integrity_for(pkg, cached)
    &&& deps_match(strings_view(e.dependencies@), pkg.deps@)
    &&& e.ecosystem == EcosystemTag::Web
    &&& opt_string_view(e.registry) == Some("npm://"@ + registry_url)
}

pub open spec fn cached_view(c: Option<Vec<u8>>) -> Option<Seq<u8>> {
    match c {
        Some(b) => Some(b@),
        None => None,
    }
}

/// The lock entries for a resolved graph. A package without integrity
/// takes that of its cached tarball (`cached[i]` for package `i`), when
/// there is one.
pub fn next_web_lock_packages(
    graph: &ResolvedGraph,
    owner_core: &str,
    registry_url: &str,
    cached: &Vec<Option<Vec<u8>>>,
) -> (r: Vec<LockPackage>)
    requires
        cached.len() == graph.packages.len(),
    ensures
        r.len() == graph.packages.len(),
        forall|i: int|
            0 <= i < r.len() ==> #[trigger] spec_lock_entry(
                graph.packages@[i],
                owner_core@,
                registry_url@,
                cached_view(cached@[i]),
                r@[i],
            ),
{
    let mut out: Vec<LockPackage> = Vec::new();
    let mut i: usize = 0;
    while i < graph.packages.len()
        invariant
            i <= graph.packages.len(),
            cached.len() == graph.packages.len(),
            out.len() == i,
            forall|k: int|
                0 <= k < i ==> #[trigger] spec_lock_entry(
                    graph.packages@[k],
                    owner_core@,
                    registry_url@,
                    cached_view(cached@[k]),
                    out@[k],
                ),
        decreases graph.packages.len() - i,
    {
        let pkg = &graph.packages[i];
        let integrity = if !pkg.integrity.as_str().is_empty() {
            pkg.integrity.clone()
        } else {
            match &cached[i] {
                Some(bytes) => compute_tarball_integrity(bytes.as_slice()),
                None => string_from_chars(&Vec::new()),
            }
        };
        let mut deps: Vec<String> = Vec::new();
        let mut j: usize = 0;
        while j < pkg.deps.len()
            invariant
                j <= pkg.deps.len(),
                deps.len() == j,
                forall|k: int| 0 <= k < j ==> #[trigger] strings_view(deps@)[k] == dep_string(pkg.deps@[k]),
            decreases pkg.deps.len() - j,
        {
            let d = string_from_chars(&dep_string_of(&pkg.deps[j]));
            let ghost before = deps@;
            deps.push(d);
            proof {
                assert(strings_view(deps@) =~= strings_view(before).push(d@));
            }
            j = j + 1;
        }
        let mut registry = str_to_string("npm://");
        string_append(&mut registry, registry_url);
        let entry = LockPackage {
            owner_core: Some(str_to_string(owner_core)),
            name: pkg.id.name.clone(),
            version: pkg.id.version.clone(),
            resolved: pkg.tarball_url.clone(),
            integrity,
            dependencies: deps,
            ecosystem: EcosystemTag::Web,
            registry: Some(registry),
        };
        out.push(entry);
        i = i + 1;
    }
    out
}

/// This core's entries of a lock that are replaced on write: web entries it
/// owns (or, for the web core, unowned ones), and in a version-2 lock the
/// untagged entries.
pub open spec fn spec_replaced(lock_version: Seq<char>, owner: Seq<char>, p: (EcosystemTag, Option<Seq<char>>)) -> bool {
    (p.0 == EcosystemTag::Web && (p.1 == Some(owner) || (owner == "web"@ && p.1.is_none()))) || (
    lock_version == legacy_lock_version() && p.0 == EcosystemTag::Other)
}

pub open spec fn kept_entries(ps: Seq<LockPackage>, v: Seq<char>, owner: Seq<char>) -> Seq<LockPackage>
    decreases ps.len(),
{
    if ps.len() == 0 {
        Seq::empty()
    } else {
        let r = kept_entries(ps.drop_last(), v, owner);
        if !spec_replaced(v, owner, entry_key(ps.last())) {
            r.push(ps.last())
        } else {
            r
        }
    }
}

/// Replaces this core's entries with `next` and stamps the current schema
/// version; other cores' entries keep their order, ahead of `next`.
pub fn replace_web_lock_packages(lockfile: &mut WebLockfile, owner_core: &str, next: Vec<LockPackage>)
    ensures
        final(lockfile).version@ == current_lock_version(),
        final(lockfile).packages@ == kept_entries(
            old(lockfile).packages@,
            old(lockfile).version@,
            owner_core@,
        ) + next@,
{
    let web_owner = is_web_owner(owner_core);
    let legacy = is_legacy(lockfile.version.as_str());
    let ghost v = lockfile.version@;
    let ghost orig = lockfile.packages@;
    let n = lockfile.packages.len();
    let mut rest: Vec<LockPackage> = Vec::new();
    std::mem::swap(&mut rest, &mut lockfile.packages);
    let mut kept: Vec<LockPackage> = Vec::new();
    let mut i: usize = 0;
    proof {
        assert(orig.skip(0) =~= orig);
        assert(orig.take(0) =~= Seq::<LockPackage>::empty());
    }
    while rest.len() > 0
        invariant
            i <= orig.len(),
            orig.len() == n,
            legacy == (v == legacy_lock_version()),
            web_owner == (owner_core@ == "web"@),
            rest@ == orig.skip(i as int),
            rest.len() == orig.len() - i,
            kept@ == kept_entries(orig.take(i as int), v, owner_core@),
        decreases rest.len(),
    {
        let p = rest.remove(0);
        proof {
            assert(p == orig[i as int]);
            assert(orig.take(i + 1).drop_last() =~= orig.take(i as int));
            assert(orig.take(i + 1).last() == p);
            assert(rest@ =~= orig.skip(i + 1));
        }
        let replaced = (p.ecosystem == EcosystemTag::Web && (owned_by(&p, owner_core) || (web_owner
            && p.owner_core.is_none()))) || (legacy && p.ecosystem == EcosystemTag::Other);
        if !replaced {
            kept.push(p);
        }
        i = i + 1;
    }
    proof {
        assert(orig.take(i as int) =~= orig);
    }
    let mut next = next;
    kept.append(&mut next);
    lockfile.packages = kept;
    let mut three: Vec<char> = Vec::new();
    three.push('3');
    lockfile.version = string_from_chars(&three);
    proof {
        assert(three@ == current_lock_version());
    }
}

/// The first entry of this adapter (see [`spec_is_web_lock_package`])
/// named `name`: where a lock records a manifest dependency.
pub fn find_web_lock_entry(lockfile: &WebLockfile, name: &str) -> (r: Option<usize>)
    ensures
        match r {
            Some(i) => i < lockfile.packages.len() && spec_is_web_lock_package(
                lockfile.version@,
                lockfile.packages@[i as int].ecosystem,
            ) && lockfile.packages@[i as int].name@ == name@ && forall|k: int|
                0 <= k < i ==> !(spec_is_web_lock_package(
                    lockfile.version@,
                    #[trigger] lockfile.packages@[k].ecosystem,
                ) && lockfile.packages@[k].name@ == name@),
            None => forall|k: int|
                0 <= k < lockfile.packages.len() ==> !(spec_is_web_lock_package(
                    lockfile.version@,
                    #[trigger] lockfile.packages@[k].ecosystem,
                ) && lockfile.packages@[k].name@ == name@),
        },
{
    let target = str_chars(name);
    let mut i: usize = 0;
    while i < lockfile.packages.len()
        invariant
            i <= lockfile.packages.len(),
            target@ == name@,
            forall|k: int|
                0 <= k < i ==> !(spec_is_web_lock_package(
                    lockfile.version@,
                    #[trigger] lockfile.packages@[k].ecosystem,
                ) && lockfile.packages@[k].name@ == name@),
        decreases lockfile.packages.len() - i,
    {
        let p = &lockfile.packages[i];
        if is_web_lock_package(lockfile, p) && chars_eq(&str_chars(p.name.as_str()), &target) {
            return Some(i);
        }
        i = i + 1;
    }
    None
}

proof fn lemma_visible_append(a: Seq<LockPackage>, b: Seq<LockPackage>, v: Seq<char>, owner: Seq<char>)
    ensures
        visible_entries(a + b, v, owner) == visible_entries(a, v, owner) + visible_entries(b, v, owner),
    decreases b.len(),
{
    if b.len() == 0 {
        assert(a + b =~= a);
        assert(visible_entries(a, v, owner) + visible_entries(b, v, owner) =~= visible_entries(a, v, owner));
    } else {
        lemma_visible_append(a, b.drop_last(), v, owner);
        assert((a + b).drop_last() =~= a + b.drop_last());
        assert((a + b).last() == b.last());
        let va = visible_entries(a, v, owner);
        let vb = visible_entries(b.drop_last(), v, owner);
        assert((va + vb).push(b.last()) =~= va + vb.push(b.last()));
    }
}

proof fn lemma_web_entries_append(a: Seq<LockPackage>, b: Seq<LockPackage>, v: Seq<char>)
    ensures
        web_entries(a + b, v) == web_entries(a, v) + web_entries(b, v),
    decreases b.len(),
{
    if b.len() == 0 {
        assert(a + b =~= a);
        assert(web_entries(a, v) + web_entries(b, v) =~= web_entries(a, v));
    } else {
        lemma_web_entries_append(a, b.drop_last(), v);
        assert((a + b).drop_last() =~= a + b.drop_last());
        assert((a + b).last() == b.last());
        let wa = web_entries(a, v);
        let wb = web_entries(b.drop_last(), v);
        assert((wa + wb).push(b.last()) =~= wa + wb.push(b.last()));
    }
}

/// What a write keeps of other cores shows, under the new schema, no web
/// entry to `owner`.
proof fn lemma_kept_hidden(ps: Seq<LockPackage>, v: Seq<char>, owner: Seq<char>)
    ensures
        web_entries(visible_entries(kept_entries(ps, v, owner), current_lock_version(), owner), current_lock_version()).len() == 0,
    decreases ps.len(),
{
    let cur = current_lock_version();
    if ps.len() > 0 {
        let k = kept_entries(ps.drop_last(), v, owner);
        lemma_kept_hidden(ps.drop_last(), v, owner);
        if !spec_replaced(v, owner, entry_key(ps.last())) {
            let p = ps.last();
            assert(kept_entries(ps, v, owner) == k.push(p));
            assert(k.push(p) =~= k + seq![p]);
            lemma_visible_append(k, seq![p], cur, owner);
            let vk = visible_entries(k, cur, owner);
            let vp = visible_entries(seq![p], cur, owner);
            assert(seq![p].drop_last() =~= Seq::<LockPackage>::empty());
            assert(seq![p].last() == p);
            assert(visible_entries(Seq::<LockPackage>::empty(), cur, owner) == Seq::<LockPackage>::empty());
            assert(visible_entries(seq![p].drop_last(), cur, owner) == Seq::<LockPackage>::empty());
            lemma_web_entries_append(vk, vp, cur);
            assert(cur[0] != legacy_lock_version()[0]);
            if spec_visible_to(cur, owner, entry_key(p)) {
                assert(p.ecosystem != EcosystemTag::Web);
                assert(vp =~= seq![p]);
                assert(web_entries(Seq::<LockPackage>::empty(), cur) == Seq::<LockPackage>::empty());
                assert(web_entries(seq![p].drop_last(), cur) == Seq::<LockPackage>::empty());
                assert(!spec_is_web_lock_package(cur, p.ecosystem));
                assert(web_entries(vp, cur).len() == 0);
            } else {
                assert(vp.len() == 0);
            }
        }
    }
}

proof fn lemma_next_visible(next: Seq<LockPackage>, owner: Seq<char>)
    requires
        forall|i: int|
            0 <= i < next.len() ==> #[trigger] next[i].ecosystem == EcosystemTag::Web && opt_string_view(
                next[i].owner_core,
            ) == Some(owner),
    ensures
        visible_entries(next, current_lock_version(), owner) == next,
        web_entries(next, current_lock_version()) == next,
    decreases next.len(),
{
    if next.len() > 0 {
        let l = next.len() - 1;
        assert(next[l].ecosystem == EcosystemTag::Web);
        lemma_next_visible(next.drop_last(), owner);
        assert(next.drop_last().push(next.last()) =~= next);
    }
}

/// What a write records is what a read finds: after this core's entries
/// are replaced by the entries made for `graph`, the lock as `owner` reads
/// it (scoped, under the new schema version) records `graph`, whatever the
/// lock held before.
pub proof fn law_written_lock_matches_graph(
    ps: Seq<LockPackage>,
    v: Seq<char>,
    owner: Seq<char>,
    registry_url: Seq<char>,
    graph: Seq<ResolvedPackage>,
    cached: Seq<Option<Seq<u8>>>,
    next: Seq<LockPackage>,
)
    requires
        next.len() == graph.len(),
        cached.len() == graph.len(),
        forall|i: int|
            0 <= i < next.len() ==> #[trigger] spec_lock_entry(
                graph[i],
                owner,
                registry_url,
                cached[i],
                next[i],
            ),
    ensures
        spec_matches_graph(
            current_lock_version(),
            visible_entries(kept_entries(ps, v, owner) + next, current_lock_version(), owner),
            graph,
        ),
{
    let cur = current_lock_version();
    let k = kept_entries(ps, v, owner);
    assert forall|i: int| 0 <= i < next.len() implies #[trigger] next[i].ecosystem
        == EcosystemTag::Web && opt_string_view(next[i].owner_core) == Some(owner) by {
        assert(spec_lock_entry(graph[i], owner, registry_url, cached[i], next[i]));
    }
    lemma_visible_append(k, next, cur, owner);
    lemma_next_visible(next, owner);
    lemma_web_entries_append(visible_entries(k, cur, owner), next, cur);
    lemma_kept_hidden(ps, v, owner);
    let w = web_entries(visible_entries(k + next, cur, owner), cur);
    assert(w =~= next);
    assert forall|i: int| 0 <= i < graph.len() implies #[trigger] entry_matches(w[i], graph[i]) by {
        assert(spec_lock_entry(graph[i], owner, registry_url, cached[i], next[i]));
    }
}

/// Scoping hides the web entries of sibling cores: every entry a core reads
/// is of another ecosystem, its own, or (for the web core) unowned or
/// untagged in a version-2 lock.
pub proof fn law_scoped_entries_visible(ps: Seq<LockPackage>, v: Seq<char>, owner: Seq<char>)
    ensures
        forall|i: int|
            0 <= i < visible_entries(ps, v, owner).len() ==> spec_visible_to(
                v,
                owner,
                entry_key(#[trigger] visible_entries(ps, v, owner)[i]),
            ),
        visible_entries(visible_entries(ps, v, owner), v, owner) == visible_entries(ps, v, owner),
    decreases ps.len(),
{
    if ps.len() > 0 {
        law_scoped_entries_visible(ps.drop_last(), v, owner);
        let r = visible_entries(ps.drop_last(), v, owner);
        if spec_visible_to(v, owner, entry_key(ps.last())) {
            assert(visible_entries(r.push(ps.last()), v, owner) =~= visible_entries(r, v, owner).push(ps.last())) by {
                assert(r.push(ps.last()).drop_last() =~= r);
            }
        }
    }
}

} // verus!
