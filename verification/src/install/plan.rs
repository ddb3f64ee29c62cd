//! The decisions of an install run: when the tree is already up to date,
//! which packages count as materialized, what an offline install lacks,
//! where a tarball comes from, and which links make up the strict
//! `node_modules` layout.

use vstd::prelude::*;
use crate::install::integrity::{
    IntegrityError, integrity_result_view, spec_verify_sri, verify_tarball_integrity,
};
use crate::paths::{join, path_join};
use crate::text::{
    chars_eq, push_decimal, spec_decimal, str_chars, str_to_string, string_append,
    string_from_chars, string_push,
};
use crate::types::{PackageId, ResolvedGraph, ResolvedPackage};

verus! {

/// Two package ids name the same package version.
pub open spec fn same_id(a: PackageId, b: PackageId) -> bool {
    a.name@ == b.name@ && a.version@ == b.version@
}

pub fn ids_equal(a: &PackageId, b: &PackageId) -> (r: bool)
    ensures
        r == same_id(*a, *b),
{
    chars_eq(&str_chars(a.name.as_str()), &str_chars(b.name.as_str())) && chars_eq(
        &str_chars(a.version.as_str()),
        &str_chars(b.version.as_str()),
    )
}

/// `id` occurs among `ids`.
pub open spec fn contains_id(ids: Seq<PackageId>, id: PackageId) -> bool {
    exists|k: int| 0 <= k < ids.len() && #[trigger] same_id(ids[k], id)
}

pub fn ids_contain(ids: &Vec<PackageId>, id: &PackageId) -> (r: bool)
    ensures
        r == contains_id(ids@, *id),
{
    let mut i: usize = 0;
    while i < ids.len()
        invariant
            i <= ids.len(),
            forall|k: int| 0 <= k < i ==> !#[trigger] same_id(ids@[k], *id),
        decreases ids.len() - i,
    {
        if ids_equal(&ids[i], id) {
            return true;
        }
        i = i + 1;
    }
    false
}

pub open spec fn all_true(v: Seq<bool>) -> bool {
    forall|i: int| 0 <= i < v.len() ==> #[trigger] v[i]
}

fn all_of(v: &Vec<bool>) -> (r: bool)
    ensures
        r == all_true(v@),
{
    let mut i: usize = 0;
    while i < v.len()
        invariant
            i <= v.len(),
            forall|k: int| 0 <= k < i ==> #[trigger] v@[k],
        decreases v.len() - i,
    {
        if !v[i] {
            return false;
        }
        i = i + 1;
    }
    true
}

/// An install has nothing to do when there are root packages and packages,
/// nothing is forced, every root package is installed at its version and
/// every package is in the virtual store at its version.
/// `roots_installed[i]` and `stored[i]` say so of root package `i` and
/// package `i`.
pub fn install_up_to_date(roots_installed: &Vec<bool>, stored: &Vec<bool>, force_install: &Vec<PackageId>) -> (r:
    bool)
    ensures
        r == (roots_installed.len() > 0 && all_true(roots_installed@) && force_install.len() == 0
            && stored.len() > 0 && all_true(stored@)),
{
    roots_installed.len() > 0 && all_of(roots_installed) && force_install.len() == 0 && stored.len()
        > 0 && all_of(stored)
}

/// Root packages already in place: installed at their version and, in an
/// incremental install, not forced.
pub open spec fn spec_already_materialized(
    roots: Seq<PackageId>,
    installed: Seq<bool>,
    force_install: Seq<PackageId>,
    incremental: bool,
) -> Seq<PackageId>
    decreases roots.len(),
{
    if roots.len() == 0 || installed.len() != roots.len() {
        Seq::empty()
    } else {
        let r = spec_already_materialized(
            roots.drop_last(),
            installed.drop_last(),
            force_install,
            incremental,
        );
        if installed.last() && !(incremental && contains_id(force_install, roots.last())) {
            r.push(roots.last())
        } else {
            r
        }
    }
}

pub fn already_materialized(
    roots: &Vec<PackageId>,
    installed: &Vec<bool>,
    force_install: &Vec<PackageId>,
    incremental: bool,
) -> (r: Vec<PackageId>)
    requires
        installed.len() == roots.len(),
    ensures
        r@ == spec_already_materialized(roots@, installed@, force_install@, incremental),
{
    let mut out: Vec<PackageId> = Vec::new();
    let mut i: usize = 0;
    while i < roots.len()
        invariant
            i <= roots.len(),
            installed.len() == roots.len(),
            out@ == spec_already_materialized(
                roots@.take(i as int),
                installed@.take(i as int),
                force_install@,
                incremental,
            ),
        decreases roots.len() - i,
    {
        proof {
            assert(roots@.take(i + 1).drop_last() =~= roots@.take(i as int));
            assert(installed@.take(i + 1).drop_last() =~= installed@.take(i as int));
        }
        if installed[i] && !(incremental && ids_contain(force_install, &roots[i])) {
            out.push(roots[i].clone_id());
        }
        i = i + 1;
    }
    proof {
        assert(roots@.take(roots.len() as int) =~= roots@);
        assert(installed@.take(roots.len() as int) =~= installed@);
    }
    out
}

impl PackageId {
    /// A copy of the id.
    pub fn clone_id(&self) -> (r: PackageId)
        ensures
            r == *self,
    {
        PackageId { name: self.name.clone(), version: self.version.clone() }
    }

    /// `name@version`.
    pub fn display(&self) -> (r: String)
        ensures
            r@ == self.name@ + "@"@ + self.version@,
    {
        let mut s = str_to_string(self.name.as_str());
        string_append(&mut s, "@");
        string_append(&mut s, self.version.as_str());
        s
    }
}

/// The live tree is set aside before materializing only when some root
/// package is not already in place or an install is forced.
pub open spec fn spec_needs_tree_backup(
    roots: Seq<PackageId>,
    already: Seq<PackageId>,
    force_install: Seq<PackageId>,
) -> bool {
    (exists|k: int| 0 <= k < roots.len() && !contains_id(already, #[trigger] roots[k]))
        || force_install.len() > 0
}

pub fn needs_tree_backup(roots: &Vec<PackageId>, already: &Vec<PackageId>, force_install: &Vec<PackageId>) -> (r:
    bool)
    ensures
        r == spec_needs_tree_backup(roots@, already@, force_install@),
{
    let mut i: usize = 0;
    while i < roots.len()
        invariant
            i <= roots.len(),
            forall|k: int| 0 <= k < i ==> contains_id(already@, #[trigger] roots@[k]),
        decreases roots.len() - i,
    {
        if !ids_contain(already, &roots[i]) {
            return true;
        }
        i = i + 1;
    }
    force_install.len() > 0
}

/// The ids (`name@version`) of the packages an offline install cannot get:
/// those in neither the local cache nor, when there is one, the shared one.
pub open spec fn spec_offline_missing(
    packages: Seq<ResolvedPackage>,
    in_local: Seq<bool>,
    in_shared: Seq<Option<bool>>,
) -> Seq<Seq<char>>
    decreases packages.len(),
{
    if packages.len() == 0 || in_local.len() != packages.len() || in_shared.len() != packages.len() {
        Seq::empty()
    } else {
        let r = spec_offline_missing(
            packages.drop_last(),
            in_local.drop_last(),
            in_shared.drop_last(),
        );
        let p = packages.last();
        if !in_local.last() && in_shared.last() != Some(true) {
            r.push(p.id.name@ + "@"@ + p.id.version@)
        } else {
            r
        }
    }
}

pub open spec fn join_lines(items: Seq<Seq<char>>) -> Seq<char>
    decreases items.len(),
{
    if items.len() == 0 {
        Seq::empty()
    } else if items.len() == 1 {
        items[0]
    } else {
        join_lines(items.drop_last()) + "\n  "@ + items.last()
    }
}

/// The error of an offline install that lacks packages.
pub open spec fn offline_error(missing: Seq<Seq<char>>) -> Seq<char> {
    "offline install: "@ + spec_decimal(missing.len()) + " package(s) not in local cache and cannot be fetched without network:\n  "@
        + join_lines(missing)
}

/// Fails an offline install that lacks packages (see
/// [`spec_offline_missing`]); succeeds otherwise. `in_shared[i]` is `None`
/// without a shared cache.
pub fn check_offline_available(
    fetch_graph: &ResolvedGraph,
    in_local: &Vec<bool>,
    in_shared: &Vec<Option<bool>>,
) -> (r: Result<(), String>)
    requires
        in_local.len() == fetch_graph.packages.len(),
        in_shared.len() == fetch_graph.packages.len(),
    ensures
        spec_offline_missing(fetch_graph.packages@, in_local@, in_shared@).len() == 0 <==> r is Ok,
        r matches Err(m) ==> m@ == offline_error(
            spec_offline_missing(fetch_graph.packages@, in_local@, in_shared@),
        ),
{
    let ghost ps = fetch_graph.packages@;
    let mut joined = string_from_chars(&Vec::new());
    let mut count: u64 = 0;
    let mut i: usize = 0;
    while i < fetch_graph.packages.len()
        invariant
            i <= fetch_graph.packages.len(),
            ps == fetch_graph.packages@,
            in_local.len() == ps.len(),
            in_shared.len() == ps.len(),
            count == spec_offline_missing(
                ps.take(i as int),
                in_local@.take(i as int),
                in_shared@.take(i as int),
            ).len(),
            count <= i,
            joined@ == join_lines(
                spec_offline_missing(ps.take(i as int), in_local@.take(i as int), in_shared@.take(i as int)),
            ),
        decreases fetch_graph.packages.len() - i,
    {
        proof {
            assert(ps.take(i + 1).drop_last() =~= ps.take(i as int));
            assert(in_local@.take(i + 1).drop_last() =~= in_local@.take(i as int));
            assert(in_shared@.take(i + 1).drop_last() =~= in_shared@.take(i as int));
        }
        let shared_has = match in_shared[i] {
            Some(b) => b,
            None => false,
        };
        if !in_local[i] && !shared_has {
            let id = fetch_graph.packages[i].id.display();
            let ghost prev = spec_offline_missing(
                ps.take(i as int),
                in_local@.take(i as int),
                in_shared@.take(i as int),
            );
            proof {
                assert(spec_offline_missing(
                    ps.take(i + 1),
                    in_local@.take(i + 1),
                    in_shared@.take(i + 1),
                ) == prev.push(id@));
                assert(prev.push(id@).drop_last() =~= prev);
            }
            if count > 0 {
                string_append(&mut joined, "\n  ");
            }
            string_append(&mut joined, id.as_str());
            proof {
                if prev.len() == 0 {
                    assert(join_lines(prev.push(id@)) == id@);
                    assert(joined@ =~= id@);
                } else {
                    assert(join_lines(prev.push(id@)) == join_lines(prev) + "\n  "@ + id@);
                }
            }
            count = count + 1;
        }
        i = i + 1;
    }
    proof {
        assert(ps.take(ps.len() as int) =~= ps);
        assert(in_local@.take(ps.len() as int) =~= in_local@);
        assert(in_shared@.take(ps.len() as int) =~= in_shared@);
    }
    if count == 0 {
        return Ok(());
    }
    let mut msg = str_to_string("offline install: ");
    push_decimal(&mut msg, count);
    string_append(
        &mut msg,
        " package(s) not in local cache and cannot be fetched without network:\n  ",
    );
    string_append(&mut msg, joined.as_str());
    Err(msg)
}

/// Where a package's tarball comes from.
#[derive(Debug, Clone, Copy, PartialEq, Eq, Structural)]
pub enum TarballSource {
    /// The local cache holds bytes that verify.
    Local,
    /// The shared cache holds bytes that verify.
    Shared,
    /// It is downloaded from the registry.
    Download,
    /// Neither cache has it and there is no registry.
    Unavailable,
}

/// The choice of source, and which cached copies failed verification and
/// are to be deleted.
#[derive(Debug, Clone, Copy)]
pub struct TarballChoice {
    pub source: TarballSource,
    pub discard_local: bool,
    pub discard_shared: bool,
}

pub open spec fn verifies(pkg: ResolvedPackage, bytes: Seq<u8>, strict: bool) -> bool {
    spec_verify_sri(pkg.id.name@, pkg.integrity@, bytes, strict) is Ok
}

/// The local copy is used when it verifies, else the shared copy when it
/// verifies, else the registry when there is one. A copy that does not
/// verify is deleted. `shared` is `None` without a shared cache and
/// `Some(None)` when the shared cache lacks the tarball.
pub fn choose_tarball_source(
    pkg: &ResolvedPackage,
    local: Option<&[u8]>,
    shared: Option<Option<&[u8]>>,
    has_registry: bool,
    strict: bool,
) -> (r: TarballChoice)
    ensures
        r.discard_local == (local matches Some(b) && !verifies(*pkg, b@, strict)),
        (local matches Some(b) && verifies(*pkg, b@, strict)) ==> r.source == TarballSource::Local
            && !r.discard_shared,
        !(local matches Some(b) && verifies(*pkg, b@, strict)) ==> {
            &&& r.discard_shared == (shared matches Some(Some(b)) && !verifies(*pkg, b@, strict))
            &&& r.source == if shared matches Some(Some(b)) && verifies(*pkg, b@, strict) {
                TarballSource::Shared
            } else if has_registry {
                TarballSource::Download
            } else {
                TarballSource::Unavailable
            }
        },
{
    let mut discard_local = false;
    if let Some(bytes) = local {
        if verify_tarball_integrity(pkg, bytes, strict).is_ok() {
            return TarballChoice { source: TarballSource::Local, discard_local: false, discard_shared: false };
        }
        discard_local = true;
    }
    let mut discard_shared = false;
    if let Some(Some(bytes)) = shared {
        if verify_tarball_integrity(pkg, bytes, strict).is_ok() {
            return TarballChoice { source: TarballSource::Shared, discard_local, discard_shared: false };
        }
        discard_shared = true;
    }
    let source = if has_registry {
        TarballSource::Download
    } else {
        TarballSource::Unavailable
    };
    TarballChoice { source, discard_local, discard_shared }
}

/// The error when a streamed download does not match the expected SRI.
pub open spec fn integrity_mismatch_message(name: Seq<char>, expected: Seq<char>, got: Seq<char>) -> Seq<
    char,
> {
    "integrity mismatch for '"@ + name + "': expected '"@ + expected + "', got '"@ + got + "'"@
}

/// Settles the integrity of a tarball streamed to disk: a known integrity
/// must equal the computed one; an unknown one becomes the computed one.
pub fn streamed_tarball_integrity(name: &str, expected: &str, computed: String) -> (r: Result<
    String,
    String,
>)
    ensures
        expected@.len() == 0 ==> r == Ok::<String, String>(computed),
        expected@.len() > 0 && expected@ == computed@ ==> (r matches Ok(s) && s@ == expected@),
        expected@.len() > 0 && expected@ != computed@ ==> (r matches Err(m) && m@
            == integrity_mismatch_message(name@, expected@, computed@)),
{
    if expected.is_empty() {
        return Ok(computed);
    }
    if chars_eq(&str_chars(expected), &str_chars(computed.as_str())) {
        return Ok(str_to_string(expected));
    }
    let mut m = str_to_string("integrity mismatch for '");
    string_append(&mut m, name);
    string_append(&mut m, "': expected '");
    string_append(&mut m, expected);
    string_append(&mut m, "', got '");
    string_append(&mut m, computed.as_str());
    string_append(&mut m, "'");
    Err(m)
}

/// `name` with every `/` replaced by `+` (a scoped name as one path segment).
pub open spec fn plus_name(name: Seq<char>) -> Seq<char> {
    name.map_values(|c: char| if c == '/' { '+' } else { c })
}

fn plus_name_of(name: &str) -> (r: String)
    ensures
        r@ == plus_name(name@),
{
    let chars = str_chars(name);
    let mut out: Vec<char> = Vec::new();
    let mut i: usize = 0;
    while i < chars.len()
        invariant
            i <= chars.len(),
            chars@ == name@,
            out@ == plus_name(chars@.take(i as int)),
        decreases chars.len() - i,
    {
        let c = chars[i];
        out.push(if c == '/' { '+' } else { c });
        proof {
            assert(plus_name(chars@.take(i + 1)) =~= plus_name(chars@.take(i as int)).push(
                if c == '/' { '+' } else { c },
            ));
        }
        i = i + 1;
    }
    proof {
        assert(chars@.take(chars@.len() as int) =~= chars@);
    }
    string_from_chars(&out)
}

/// `<node_modules>/.magicore/<name with / as +>@<version>/node_modules`.
pub open spec fn spec_vstore_node_modules(node_modules: Seq<char>, id: PackageId) -> Seq<char> {
    path_join(
        path_join(path_join(node_modules, ".magicore"@), plus_name(id.name@) + "@"@ + id.version@),
        "node_modules"@,
    )
}

/// The virtual-store directory of a package: its name under
/// [`spec_vstore_node_modules`].
pub open spec fn spec_vstore_package_dir(node_modules: Seq<char>, id: PackageId) -> Seq<char> {
    path_join(spec_vstore_node_modules(node_modules, id), id.name@)
}

pub fn strict_vstore_node_modules_dir(node_modules: &str, package_id: &PackageId) -> (r: String)
    ensures
        r@ == spec_vstore_node_modules(node_modules@, *package_id),
{
    let mut key = plus_name_of(package_id.name.as_str());
    string_append(&mut key, "@");
    string_append(&mut key, package_id.version.as_str());
    let a = join(node_modules, ".magicore");
    let b = join(a.as_str(), key.as_str());
    join(b.as_str(), "node_modules")
}

pub fn strict_vstore_package_dir(node_modules: &str, package_id: &PackageId) -> (r: String)
    ensures
        r@ == spec_vstore_package_dir(node_modules@, *package_id),
{
    let d = strict_vstore_node_modules_dir(node_modules, package_id);
    join(d.as_str(), package_id.name.as_str())
}

/// A symbolic link to create: `link` pointing at `target`.
#[derive(Debug, Clone)]
pub struct LinkAction {
    pub target: String,
    pub link: String,
}

pub open spec fn links_view(v: Seq<LinkAction>) -> Seq<(Seq<char>, Seq<char>)> {
    v.map_values(|a: LinkAction| (a.target@, a.link@))
}

pub open spec fn graph_ids(ps: Seq<ResolvedPackage>) -> Seq<PackageId> {
    ps.map_values(|p: ResolvedPackage| p.id)
}

/// The two links that make a dependency visible to a package: beside the
/// package in its virtual-store `node_modules`, and inside the package's
/// own `node_modules`.
pub open spec fn dep_links(node_modules: Seq<char>, pkg: PackageId, dep: PackageId) -> Seq<
    (Seq<char>, Seq<char>),
> {
    seq![
        (spec_vstore_package_dir(node_modules, dep), path_join(
            spec_vstore_node_modules(node_modules, pkg),
            dep.name@,
        )),
        (spec_vstore_package_dir(node_modules, dep), path_join(
            path_join(path_join(spec_vstore_node_modules(node_modules, pkg), pkg.name@), "node_modules"@),
            dep.name@,
        )),
    ]
}

/// The links for a list of dependencies of `pkg`; dependencies outside the
/// graph get none.
pub open spec fn deps_links(
    node_modules: Seq<char>,
    pkg: PackageId,
    deps: Seq<PackageId>,
    ids: Seq<PackageId>,
) -> Seq<(Seq<char>, Seq<char>)>
    decreases deps.len(),
{
    if deps.len() == 0 {
        Seq::empty()
    } else {
        let r = deps_links(node_modules, pkg, deps.drop_last(), ids);
        if contains_id(ids, deps.last()) {
            r + dep_links(node_modules, pkg, deps.last())
        } else {
            r
        }
    }
}

/// The links of one package of the strict layout: its dependencies, then
/// its peer dependencies.
pub open spec fn package_links(node_modules: Seq<char>, p: ResolvedPackage, ids: Seq<PackageId>) -> Seq<
    (Seq<char>, Seq<char>),
> {
    deps_links(node_modules, p.id, p.deps@, ids) + deps_links(node_modules, p.id, p.peer_deps@, ids)
}

/// The links of the packages being materialized, in order.
pub open spec fn layout_links(node_modules: Seq<char>, ps: Seq<ResolvedPackage>, ids: Seq<PackageId>) -> Seq<
    (Seq<char>, Seq<char>),
>
    decreases ps.len(),
{
    if ps.len() == 0 {
        Seq::empty()
    } else {
        layout_links(node_modules, ps.drop_last(), ids) + package_links(node_modules, ps.last(), ids)
    }
}

/// The links that expose root packages at the top of `node_modules`.
pub open spec fn root_links(node_modules: Seq<char>, roots: Seq<PackageId>) -> Seq<(Seq<char>, Seq<char>)>
    decreases roots.len(),
{
    if roots.len() == 0 {
        Seq::empty()
    } else {
        root_links(node_modules, roots.drop_last()) + seq![
            (spec_vstore_package_dir(node_modules, roots.last()), path_join(
                node_modules,
                roots.last().name@,
            )),
        ]
    }
}

/// The first of `ps` whose id is not in `ids`.
pub open spec fn first_missing(ps: Seq<PackageId>, ids: Seq<PackageId>) -> Option<PackageId>
    decreases ps.len(),
{
    if ps.len() == 0 {
        None
    } else {
        match first_missing(ps.drop_last(), ids) {
            Some(m) => Some(m),
            None => if contains_id(ids, ps.last()) {
                None
            } else {
                Some(ps.last())
            },
        }
    }
}

fn push_dep_links(
    out: &mut Vec<LinkAction>,
    node_modules: &str,
    pkg: &PackageId,
    deps: &Vec<PackageId>,
    ids: &Vec<PackageId>,
)
    ensures
        links_view(final(out)@) == links_view(old(out)@) + deps_links(
            node_modules@,
            *pkg,
            deps@,
            ids@,
        ),
{
    let ghost start = links_view(out@);
    let vstore_nm = strict_vstore_node_modules_dir(node_modules, pkg);
    let pkg_root = join(vstore_nm.as_str(), pkg.name.as_str());
    let local_nm = join(pkg_root.as_str(), "node_modules");
    let mut i: usize = 0;
    while i < deps.len()
        invariant
            i <= deps.len(),
            vstore_nm@ == spec_vstore_node_modules(node_modules@, *pkg),
            local_nm@ == path_join(
                path_join(spec_vstore_node_modules(node_modules@, *pkg), pkg.name@),
                "node_modules"@,
            ),
            links_view(out@) == start + deps_links(node_modules@, *pkg, deps@.take(i as int), ids@),
        decreases deps.len() - i,
    {
        let d = &deps[i];
        proof {
            assert(deps@.take(i + 1).drop_last() =~= deps@.take(i as int));
            assert(deps@.take(i + 1).last() == *d);
        }
        if ids_contain(ids, d) {
            let target = strict_vstore_package_dir(node_modules, d);
            let a = LinkAction { target: str_to_string(target.as_str()), link: join(vstore_nm.as_str(), d.name.as_str()) };
            let b = LinkAction { target, link: join(local_nm.as_str(), d.name.as_str()) };
            let ghost before = out@;
            out.push(a);
            out.push(b);
            proof {
                assert(links_view(out@) =~= links_view(before) + dep_links(node_modules@, *pkg, *d));
            }
        }
        i = i + 1;
    }
    proof {
        assert(deps@.take(deps.len() as int) =~= deps@);
    }
}

/// Plans the strict layout: for each package being materialized, links
/// from its virtual-store `node_modules` (and its own `node_modules`) to
/// each dependency and peer dependency in the graph; then a top-level link
/// to each root package. A package being materialized, or a root, that is
/// not in the graph is an error naming it (`name@version`).
pub fn strict_layout_links(
    node_modules: &str,
    graph: &ResolvedGraph,
    materialization: &ResolvedGraph,
    roots: &Vec<PackageId>,
) -> (r: Result<Vec<LinkAction>, String>)
    ensures
        ({
            let ids = graph_ids(graph.packages@);
            match first_missing(graph_ids(materialization.packages@), ids) {
                Some(m) => r matches Err(e) && e@ == "missing virtual store path for '"@ + m.name@ + "@"@
                    + m.version@ + "'"@,
                None => match first_missing(roots@, ids) {
                    Some(m) => r matches Err(e) && e@ == "missing root virtual store path for '"@
                        + m.name@ + "@"@ + m.version@ + "'"@,
                    None => r matches Ok(v) && links_view(v@) == layout_links(
                        node_modules@,
                        materialization.packages@,
                        ids,
                    ) + root_links(node_modules@, roots@),
                },
            }
        }),
        r matches Ok(v) ==> forall|i: int, k: int|
            #![trigger materialization.packages@[i].deps@[k]]
            0 <= i < materialization.packages.len() && 0 <= k
                < materialization.packages@[i].deps@.len() && contains_id(
                graph_ids(graph.packages@),
                materialization.packages@[i].deps@[k],
            ) ==> exposes_dep(
                links_view(v@),
                node_modules@,
                materialization.packages@[i].id,
                materialization.packages@[i].deps@[k],
            ),
        r matches Ok(v) ==> forall|i: int, k: int|
            #![trigger materialization.packages@[i].peer_deps@[k]]
            0 <= i < materialization.packages.len() && 0 <= k
                < materialization.packages@[i].peer_deps@.len() && contains_id(
                graph_ids(graph.packages@),
                materialization.packages@[i].peer_deps@[k],
            ) ==> exposes_dep(
                links_view(v@),
                node_modules@,
                materialization.packages@[i].id,
                materialization.packages@[i].peer_deps@[k],
            ),
{
    let ghost ps = materialization.packages@;
    let mut ids: Vec<PackageId> = Vec::new();
    let mut k: usize = 0;
    while k < graph.packages.len()
        invariant
            k <= graph.packages.len(),
            ids@ == graph_ids(graph.packages@).take(k as int),
        decreases graph.packages.len() - k,
    {
        ids.push(graph.packages[k].id.clone_id());
        proof {
            assert(graph_ids(graph.packages@).take(k + 1) =~= graph_ids(graph.packages@).take(k as int).push(
                graph.packages@[k as int].id,
            ));
        }
        k = k + 1;
    }
    proof {
        assert(graph_ids(graph.packages@).take(graph.packages.len() as int) =~= graph_ids(graph.packages@));
    }
    let mut out: Vec<LinkAction> = Vec::new();
    let mut i: usize = 0;
    while i < materialization.packages.len()
        invariant
            i <= materialization.packages.len(),
            ps == materialization.packages@,
            ids@ == graph_ids(graph.packages@),
            first_missing(graph_ids(ps.take(i as int)), ids@).is_none(),
            links_view(out@) == layout_links(node_modules@, ps.take(i as int), ids@),
        decreases materialization.packages.len() - i,
    {
        let p = &materialization.packages[i];
        proof {
            assert(ps.take(i + 1).drop_last() =~= ps.take(i as int));
            assert(graph_ids(ps.take(i + 1)).drop_last() =~= graph_ids(ps.take(i as int)));
            assert(graph_ids(ps.take(i + 1)).last() == p.id);
        }
        if !ids_contain(&ids, &p.id) {
            proof {
                lemma_first_missing_prefix(graph_ids(ps), ids@, i + 1);
            }
            let mut e = str_to_string("missing virtual store path for '");
            let d = p.id.display();
            string_append(&mut e, d.as_str());
            string_append(&mut e, "'");
            proof {
                assert(first_missing(graph_ids(ps.take(i + 1)), ids@) == Some(p.id));
                assert(graph_ids(ps).take(i + 1) =~= graph_ids(ps.take(i + 1)));
                assert(e@ =~= "missing virtual store path for '"@ + p.id.name@ + "@"@ + p.id.version@
                    + "'"@);
            }
            return Err(e);
        }
        push_dep_links(&mut out, node_modules, &p.id, &p.deps, &ids);
        push_dep_links(&mut out, node_modules, &p.id, &p.peer_deps, &ids);
        i = i + 1;
    }
    proof {
        assert(ps.take(ps.len() as int) =~= ps);
    }
    let ghost mid = links_view(out@);
    let mut j: usize = 0;
    while j < roots.len()
        invariant
            j <= roots.len(),
            ps == materialization.packages@,
            ids@ == graph_ids(graph.packages@),
            first_missing(graph_ids(ps), ids@).is_none(),
            first_missing(roots@.take(j as int), ids@).is_none(),
            links_view(out@) == mid + root_links(node_modules@, roots@.take(j as int)),
        decreases roots.len() - j,
    {
        let root = &roots[j];
        proof {
            assert(roots@.take(j + 1).drop_last() =~= roots@.take(j as int));
            assert(roots@.take(j + 1).last() == *root);
        }
        if !ids_contain(&ids, root) {
            proof {
                lemma_first_missing_prefix(roots@, ids@, j + 1);
            }
            let mut e = str_to_string("missing root virtual store path for '");
            let d = root.display();
            string_append(&mut e, d.as_str());
            string_append(&mut e, "'");
            proof {
                assert(first_missing(roots@.take(j + 1), ids@) == Some(*root));
                assert(e@ =~= "missing root virtual store path for '"@ + root.name@ + "@"@
                    + root.version@ + "'"@);
            }
            return Err(e);
        }
        let target = strict_vstore_package_dir(node_modules, root);
        let link = join(node_modules, root.name.as_str());
        let ghost before = out@;
        out.push(LinkAction { target, link });
        proof {
            assert(links_view(out@) =~= links_view(before).push((target@, link@)));
        }
        j = j + 1;
    }
    proof {
        assert(roots@.take(roots.len() as int) =~= roots@);
        law_layout_exposes_deps_and_peers(node_modules@, ps, ids@);
        let lay = layout_links(node_modules@, ps, ids@);
        let all = links_view(out@);
        assert(all == lay + root_links(node_modules@, roots@));
        assert forall|x: (Seq<char>, Seq<char>)| lay.contains(x) implies #[trigger] all.contains(x) by {
            let a = choose|a: int| 0 <= a < lay.len() && lay[a] == x;
            assert(all[a] == x);
        }
    }
    Ok(out)
}

/// `links` make `dep` visible to `pkg` in the strict layout: a link at
/// `<vstore node_modules of pkg>/<dep name>` and one at
/// `<pkg's own node_modules>/<dep name>`, both pointing at the virtual-store
/// directory of `dep`.
pub open spec fn exposes_dep(
    links: Seq<(Seq<char>, Seq<char>)>,
    node_modules: Seq<char>,
    pkg: PackageId,
    dep: PackageId,
) -> bool {
    let target = spec_vstore_package_dir(node_modules, dep);
    let vstore_nm = spec_vstore_node_modules(node_modules, pkg);
    &&& links.contains((target, path_join(vstore_nm, dep.name@)))
    &&& links.contains(
        (target, path_join(path_join(path_join(vstore_nm, pkg.name@), "node_modules"@), dep.name@)),
    )
}

/// Every dependency of a listed package that is in the graph gets its links.
proof fn lemma_deps_links_expose(
    node_modules: Seq<char>,
    pkg: PackageId,
    deps: Seq<PackageId>,
    ids: Seq<PackageId>,
)
    ensures
        forall|k: int|
            0 <= k < deps.len() && contains_id(ids, #[trigger] deps[k]) ==> exposes_dep(
                deps_links(node_modules, pkg, deps, ids),
                node_modules,
                pkg,
                deps[k],
            ),
    decreases deps.len(),
{
    if deps.len() > 0 {
        let init = deps.drop_last();
        lemma_deps_links_expose(node_modules, pkg, init, ids);
        let r = deps_links(node_modules, pkg, init, ids);
        let full = deps_links(node_modules, pkg, deps, ids);
        assert forall|k: int|
            0 <= k < deps.len() && contains_id(ids, #[trigger] deps[k]) implies exposes_dep(
                full,
                node_modules,
                pkg,
                deps[k],
            ) by {
            let d = deps[k];
            let target = spec_vstore_package_dir(node_modules, d);
            let vstore_nm = spec_vstore_node_modules(node_modules, pkg);
            let l1 = (target, path_join(vstore_nm, d.name@));
            let l2 = (
                target,
                path_join(path_join(path_join(vstore_nm, pkg.name@), "node_modules"@), d.name@),
            );
            if k < init.len() {
                assert(init[k] == d);
                assert(r.contains(l1) && r.contains(l2));
                let a = choose|a: int| 0 <= a < r.len() && r[a] == l1;
                let b = choose|b: int| 0 <= b < r.len() && r[b] == l2;
                if contains_id(ids, deps.last()) {
                    assert(full == r + dep_links(node_modules, pkg, deps.last()));
                    assert(full[a] == l1);
                    assert(full[b] == l2);
                } else {
                    assert(full == r);
                }
            } else {
                assert(d == deps.last());
                let dl = dep_links(node_modules, pkg, d);
                assert(full == r + dl);
                assert(full[r.len() as int] == dl[0]);
                assert(full[r.len() as int + 1] == dl[1]);
                assert(dl[0] == l1);
                assert(dl[1] == l2);
            }
        }
    }
}

/// Whatever links one materialized package gets, the whole layout has.
proof fn lemma_layout_links_include(
    node_modules: Seq<char>,
    ps: Seq<ResolvedPackage>,
    ids: Seq<PackageId>,
)
    ensures
        forall|i: int, x: (Seq<char>, Seq<char>)|
            0 <= i < ps.len() && #[trigger] package_links(node_modules, ps[i], ids).contains(x)
                ==> layout_links(node_modules, ps, ids).contains(x),
    decreases ps.len(),
{
    if ps.len() > 0 {
        let init = ps.drop_last();
        lemma_layout_links_include(node_modules, init, ids);
        let r = layout_links(node_modules, init, ids);
        let pl = package_links(node_modules, ps.last(), ids);
        let full = layout_links(node_modules, ps, ids);
        assert(full == r + pl);
        assert forall|i: int, x: (Seq<char>, Seq<char>)|
            0 <= i < ps.len() && #[trigger] package_links(node_modules, ps[i], ids).contains(x)
                implies full.contains(x) by {
            if i < init.len() {
                assert(init[i] == ps[i]);
                assert(r.contains(x));
                let a = choose|a: int| 0 <= a < r.len() && r[a] == x;
                assert(full[a] == x);
            } else {
                assert(ps[i] == ps.last());
                let a = choose|a: int| 0 <= a < pl.len() && pl[a] == x;
                assert(full[r.len() as int + a] == x);
            }
        }
    }
}

/// In the strict layout every materialized package sees each of its
/// dependencies and each of its peer dependencies that the graph holds:
/// both links to the dependency's virtual-store directory are planned.
pub proof fn law_layout_exposes_deps_and_peers(
    node_modules: Seq<char>,
    ps: Seq<ResolvedPackage>,
    ids: Seq<PackageId>,
)
    ensures
        forall|i: int, k: int|
            #![trigger ps[i].deps@[k]]
            0 <= i < ps.len() && 0 <= k < ps[i].deps@.len() && contains_id(ids, ps[i].deps@[k])
                ==> exposes_dep(layout_links(node_modules, ps, ids), node_modules, ps[i].id, ps[i].deps@[k]),
        forall|i: int, k: int|
            #![trigger ps[i].peer_deps@[k]]
            0 <= i < ps.len() && 0 <= k < ps[i].peer_deps@.len() && contains_id(
                ids,
                ps[i].peer_deps@[k],
            ) ==> exposes_dep(
                layout_links(node_modules, ps, ids),
                node_modules,
                ps[i].id,
                ps[i].peer_deps@[k],
            ),
{
    lemma_layout_links_include(node_modules, ps, ids);
    let all = layout_links(node_modules, ps, ids);
    assert forall|i: int, k: int|
        #![trigger ps[i].deps@[k]]
        0 <= i < ps.len() && 0 <= k < ps[i].deps@.len() && contains_id(ids, ps[i].deps@[k])
            implies exposes_dep(all, node_modules, ps[i].id, ps[i].deps@[k]) by {
        let p = ps[i];
        let d = p.deps@[k];
        let dl = deps_links(node_modules, p.id, p.deps@, ids);
        let pl = package_links(node_modules, p, ids);
        lemma_deps_links_expose(node_modules, p.id, p.deps@, ids);
        assert(exposes_dep(dl, node_modules, p.id, d));
        let target = spec_vstore_package_dir(node_modules, d);
        let vstore_nm = spec_vstore_node_modules(node_modules, p.id);
        let l1 = (target, path_join(vstore_nm, d.name@));
        let l2 = (target, path_join(path_join(path_join(vstore_nm, p.id.name@), "node_modules"@), d.name@));
        let a = choose|a: int| 0 <= a < dl.len() && dl[a] == l1;
        let b = choose|b: int| 0 <= b < dl.len() && dl[b] == l2;
        assert(pl[a] == l1);
        assert(pl[b] == l2);
        assert(pl.contains(l1));
        assert(pl.contains(l2));
    }
    assert forall|i: int, k: int|
        #![trigger ps[i].peer_deps@[k]]
        0 <= i < ps.len() && 0 <= k < ps[i].peer_deps@.len() && contains_id(ids, ps[i].peer_deps@[k])
            implies exposes_dep(all, node_modules, ps[i].id, ps[i].peer_deps@[k]) by {
        let p = ps[i];
        let d = p.peer_deps@[k];
        let dl0 = deps_links(node_modules, p.id, p.deps@, ids);
        let dl = deps_links(node_modules, p.id, p.peer_deps@, ids);
        let pl = package_links(node_modules, p, ids);
        lemma_deps_links_expose(node_modules, p.id, p.peer_deps@, ids);
        assert(exposes_dep(dl, node_modules, p.id, d));
        let target = spec_vstore_package_dir(node_modules, d);
        let vstore_nm = spec_vstore_node_modules(node_modules, p.id);
        let l1 = (target, path_join(vstore_nm, d.name@));
        let l2 = (target, path_join(path_join(path_join(vstore_nm, p.id.name@), "node_modules"@), d.name@));
        let a = choose|a: int| 0 <= a < dl.len() && dl[a] == l1;
        let b = choose|b: int| 0 <= b < dl.len() && dl[b] == l2;
        assert(pl[dl0.len() as int + a] == l1);
        assert(pl[dl0.len() as int + b] == l2);
        assert(pl.contains(l1));
        assert(pl.contains(l2));
    }
}

/// A missing entry found in a prefix is the first missing entry overall.
proof fn lemma_first_missing_prefix(ps: Seq<PackageId>, ids: Seq<PackageId>, n: int)
    requires
        0 <= n <= ps.len(),
        first_missing(ps.take(n), ids).is_some(),
    ensures
        first_missing(ps, ids) == first_missing(ps.take(n), ids),
    decreases ps.len(),
{
    if n < ps.len() {
        assert(ps.drop_last().take(n) =~= ps.take(n));
        lemma_first_missing_prefix(ps.drop_last(), ids, n);
    } else {
        assert(ps.take(n) =~= ps);
    }
}


pub open spec fn same_name(ps: Seq<ResolvedPackage>, a: int, b: int) -> bool {
    ps[a].id.name@ == ps[b].id.name@
}

/// Package `j` is the one kept for its name when no package is direct: the
/// first of the highest version (`ranks` orders versions).
pub open spec fn is_best_of_name(ps: Seq<ResolvedPackage>, ranks: Seq<u64>, j: int) -> bool {
    &&& 0 <= j < ps.len()
    &&& forall|k: int| 0 <= k < ps.len() && #[trigger] same_name(ps, k, j) ==> ranks[k] <= ranks[j]
    &&& forall|k: int| 0 <= k < j && #[trigger] same_name(ps, k, j) ==> ranks[k] < ranks[j]
}

pub open spec fn any_direct(ps: Seq<ResolvedPackage>) -> bool {
    exists|k: int| 0 <= k < ps.len() && (#[trigger] ps[k]).direct
}

pub open spec fn name_is_unique(ps: Seq<ResolvedPackage>, i: int) -> bool {
    forall|k: int| 0 <= k < ps.len() && k != i ==> !#[trigger] same_name(ps, k, i)
}

/// Whether package `i` is linked at the top of `node_modules`: with direct
/// packages, the direct ones and those whose name occurs once; otherwise
/// those with the id of the best package of their name.
pub open spec fn is_root_package(ps: Seq<ResolvedPackage>, ranks: Seq<u64>, i: int) -> bool {
    if any_direct(ps) {
        ps[i].direct || name_is_unique(ps, i)
    } else {
        exists|j: int|
            #[trigger] is_best_of_name(ps, ranks, j) && same_name(ps, j, i) && same_id(ps[j].id, ps[i].id)
    }
}

/// Positions below `n` that are root packages, in order.
pub open spec fn root_positions(ps: Seq<ResolvedPackage>, ranks: Seq<u64>, n: nat) -> Seq<usize>
    decreases n,
{
    if n == 0 {
        Seq::empty()
    } else {
        let r = root_positions(ps, ranks, (n - 1) as nat);
        if is_root_package(ps, ranks, n - 1) {
            r.push((n - 1) as usize)
        } else {
            r
        }
    }
}

fn names_equal(a: &ResolvedPackage, b: &ResolvedPackage) -> (r: bool)
    ensures
        r == (a.id.name@ == b.id.name@),
{
    chars_eq(&str_chars(a.id.name.as_str()), &str_chars(b.id.name.as_str()))
}

/// The position of the best package named like package `i` (see
/// [`is_best_of_name`]).
fn best_of_name(ps: &Vec<ResolvedPackage>, ranks: &Vec<u64>, i: usize) -> (j: usize)
    requires
        i < ps.len(),
        ranks.len() == ps.len(),
    ensures
        is_best_of_name(ps@, ranks@, j as int),
        same_name(ps@, j as int, i as int),
{
    let mut best: usize = i;
    let mut found = false;
    let mut k: usize = 0;
    while k < ps.len()
        invariant
            k <= ps.len(),
            i < ps.len(),
            ranks.len() == ps.len(),
            best < ps.len(),
            found ==> best < k,
            !found ==> best == i,
            found ==> same_name(ps@, best as int, i as int),
            found ==> forall|m: int| 0 <= m < k && #[trigger] same_name(ps@, m, i as int) ==> ranks@[m] <= ranks@[best as int],
            found ==> forall|m: int| 0 <= m < best && #[trigger] same_name(ps@, m, i as int) ==> ranks@[m] < ranks@[best as int],
            !found ==> forall|m: int| 0 <= m < k ==> !#[trigger] same_name(ps@, m, i as int),
        decreases ps.len() - k,
    {
        if names_equal(&ps[k], &ps[i]) {
            if !found || ranks[k] > ranks[best] {
                best = k;
                found = true;
            }
        }
        k = k + 1;
    }
    proof {
        if !found {
            assert(same_name(ps@, i as int, i as int));
        }
        assert forall|m: int| 0 <= m < ps@.len() && #[trigger] same_name(ps@, m, best as int) implies ranks@[m] <= ranks@[best as int] by {
            assert(same_name(ps@, m, i as int));
        }
        assert forall|m: int| 0 <= m < best && #[trigger] same_name(ps@, m, best as int) implies ranks@[m] < ranks@[best as int] by {
            assert(same_name(ps@, m, i as int));
        }
    }
    best
}

/// The best package of a name is unique.
proof fn lemma_best_unique(ps: Seq<ResolvedPackage>, ranks: Seq<u64>, a: int, b: int)
    requires
        is_best_of_name(ps, ranks, a),
        is_best_of_name(ps, ranks, b),
        same_name(ps, a, b),
    ensures
        a == b,
{
    assert(same_name(ps, b, a));
    if a < b {
        assert(ranks[a] < ranks[b]);
        assert(ranks[b] <= ranks[a]);
    } else if b < a {
        assert(ranks[b] < ranks[a]);
        assert(ranks[a] <= ranks[b]);
    }
}

/// The packages linked at the top of `node_modules`, as positions in the
/// graph (see [`is_root_package`]); `ranks[i]` orders package `i`'s version
/// among the graph's versions.
pub fn select_root_packages(graph: &ResolvedGraph, ranks: &Vec<u64>) -> (r: Vec<usize>)
    requires
        ranks.len() == graph.packages.len(),
    ensures
        r@ == root_positions(graph.packages@, ranks@, graph.packages.len() as nat),
{
    let ps = &graph.packages;
    let mut has_direct = false;
    let mut k: usize = 0;
    while k < ps.len()
        invariant
            k <= ps.len(),
            has_direct == exists|m: int| 0 <= m < k && (#[trigger] ps@[m]).direct,
        decreases ps.len() - k,
    {
        if ps[k].direct {
            has_direct = true;
        }
        k = k + 1;
    }
    let mut out: Vec<usize> = Vec::new();
    let mut i: usize = 0;
    while i < ps.len()
        invariant
            i <= ps.len(),
            ranks.len() == ps.len(),
            ps == &graph.packages,
            has_direct == any_direct(ps@),
            out@ == root_positions(ps@, ranks@, i as nat),
        decreases ps.len() - i,
    {
        let keep = if has_direct {
            if ps[i].direct {
                true
            } else {
                let mut unique = true;
                let mut m: usize = 0;
                while m < ps.len()
                    invariant
                        m <= ps.len(),
                        i < ps.len(),
                        unique == forall|q: int| 0 <= q < m && q != i ==> !#[trigger] same_name(ps@, q, i as int),
                    decreases ps.len() - m,
                {
                    if m != i && names_equal(&ps[m], &ps[i]) {
                        proof {
                            assert(same_name(ps@, m as int, i as int));
                        }
                        unique = false;
                    }
                    m = m + 1;
                }
                unique
            }
        } else {
            let j = best_of_name(ps, ranks, i);
            let same = ids_equal(&ps[j].id, &ps[i].id);
            proof {
                if !same {
                    assert forall|q: int| #[trigger] is_best_of_name(ps@, ranks@, q) && same_name(ps@, q, i as int) implies !same_id(ps@[q].id, ps@[i as int].id) by {
                        assert(same_name(ps@, q, j as int));
                        lemma_best_unique(ps@, ranks@, q, j as int);
                    }
                }
            }
            same
        };
        proof {
            assert(keep == is_root_package(ps@, ranks@, i as int));
        }
        if keep {
            out.push(i);
        }
        i = i + 1;
    }
    out
}


/// In an incremental install, the root packages to relink: those fetched
/// again or not installed at their version; otherwise all of them.
/// `fetched[i]` and `installed[i]` say so of root package `i`.
pub open spec fn spec_roots_to_link(
    roots: Seq<PackageId>,
    fetched: Seq<bool>,
    installed: Seq<bool>,
    incremental: bool,
) -> Seq<PackageId>
    decreases roots.len(),
{
    if roots.len() == 0 || fetched.len() != roots.len() || installed.len() != roots.len() {
        Seq::empty()
    } else {
        let r = spec_roots_to_link(roots.drop_last(), fetched.drop_last(), installed.drop_last(), incremental);
        if !incremental || fetched.last() || !installed.last() {
            r.push(roots.last())
        } else {
            r
        }
    }
}

pub fn roots_to_link(
    roots: &Vec<PackageId>,
    fetched: &Vec<bool>,
    installed: &Vec<bool>,
    incremental: bool,
) -> (r: Vec<PackageId>)
    requires
        fetched.len() == roots.len(),
        installed.len() == roots.len(),
    ensures
        r@ == spec_roots_to_link(roots@, fetched@, installed@, incremental),
{
    let mut out: Vec<PackageId> = Vec::new();
    let mut i: usize = 0;
    while i < roots.len()
        invariant
            i <= roots.len(),
            fetched.len() == roots.len(),
            installed.len() == roots.len(),
            out@ == spec_roots_to_link(
                roots@.take(i as int),
                fetched@.take(i as int),
                installed@.take(i as int),
                incremental,
            ),
        decreases roots.len() - i,
    {
        proof {
            assert(roots@.take(i + 1).drop_last() =~= roots@.take(i as int));
            assert(fetched@.take(i + 1).drop_last() =~= fetched@.take(i as int));
            assert(installed@.take(i + 1).drop_last() =~= installed@.take(i as int));
        }
        if !incremental || fetched[i] || !installed[i] {
            out.push(roots[i].clone_id());
        }
        i = i + 1;
    }
    proof {
        assert(roots@.take(roots.len() as int) =~= roots@);
        assert(fetched@.take(roots.len() as int) =~= fetched@);
        assert(installed@.take(roots.len() as int) =~= installed@);
    }
    out
}

/// The root packages whose bin links are rebuilt: the affected ones, or
/// all roots when nothing is affected and `.bin` does not exist yet.
/// Returns whether all roots are taken.
pub fn bin_links_for_all_roots(bin_dir_exists: bool, affected_count: usize) -> (r: bool)
    ensures
        r == (!bin_dir_exists && affected_count == 0),
{
    !bin_dir_exists && affected_count == 0
}

pub open spec fn join_semis(items: Seq<Seq<char>>) -> Seq<char>
    decreases items.len(),
{
    if items.len() == 0 {
        Seq::empty()
    } else if items.len() == 1 {
        items[0]
    } else {
        join_semis(items.drop_last()) + "; "@ + items.last()
    }
}

/// The error of an install whose lifecycle scripts failed: with the
/// rollback of the lock and tree done, a hint to skip scripts; otherwise
/// the rollback failures too.
pub open spec fn lifecycle_failure_message(failure: Seq<char>, rollback_failures: Seq<Seq<char>>) -> Seq<char> {
    if rollback_failures.len() == 0 {
        failure
            + " (lockfile rolled back to pre-install state; re-run with --ignore-scripts to skip lifecycle scripts)"@
    } else {
        failure
            + " (ROLLBACK ALSO FAILED \u{2014} project may be inconsistent, delete node_modules + mgc.lock and re-run install: "@
            + join_semis(rollback_failures) + ")"@
    }
}

pub fn lifecycle_failure_error(failure: &str, rollback_failures: &Vec<String>) -> (r: String)
    ensures
        r@ == lifecycle_failure_message(
            failure@,
            rollback_failures@.map_values(|s: String| s@),
        ),
{
    let ghost rv = rollback_failures@.map_values(|s: String| s@);
    let mut m = str_to_string(failure);
    if rollback_failures.len() == 0 {
        string_append(
            &mut m,
            " (lockfile rolled back to pre-install state; re-run with --ignore-scripts to skip lifecycle scripts)",
        );
        return m;
    }
    string_append(
        &mut m,
        " (ROLLBACK ALSO FAILED \u{2014} project may be inconsistent, delete node_modules + mgc.lock and re-run install: ",
    );
    let mut joined = string_from_chars(&Vec::new());
    let mut i: usize = 0;
    while i < rollback_failures.len()
        invariant
            i <= rollback_failures.len(),
            rv == rollback_failures@.map_values(|s: String| s@),
            joined@ == join_semis(rv.take(i as int)),
        decreases rollback_failures.len() - i,
    {
        proof {
            assert(rv.take(i + 1).drop_last() =~= rv.take(i as int));
            assert(rv.take(i + 1).last() == rollback_failures@[i as int]@);
        }
        if i > 0 {
            string_append(&mut joined, "; ");
        }
        string_append(&mut joined, rollback_failures[i].as_str());
        proof {
            if i == 0 {
                assert(rv.take(1)[0] == rv[0]);
                assert(joined@ =~= join_semis(rv.take(1)));
            }
        }
        i = i + 1;
    }
    proof {
        assert(rv.take(rollback_failures.len() as int) =~= rv);
    }
    string_append(&mut m, joined.as_str());
    string_append(&mut m, ")");
    m
}

/// How many extractions run at once: the positive setting, else the
/// machine's parallelism (4 when unknown) capped at 32.
pub fn extract_concurrency(setting: Option<u64>, available_parallelism: Option<u64>) -> (r: u64)
    ensures
        r == match setting {
            Some(n) if n > 0 => n,
            _ => match available_parallelism {
                Some(p) => if p < 32 {
                    p
                } else {
                    32
                },
                None => 4,
            },
        },
{
    match setting {
        Some(n) if n > 0 => n,
        _ => match available_parallelism {
            Some(p) => if p < 32 {
                p
            } else {
                32
            },
            None => 4,
        },
    }
}

} // verus!
