//! `node_modules/.bin`: the executables a package declares, which existing
//! links are stale, and which declared targets are refused.

use vstd::prelude::*;
use crate::install::plan::plus_name;
use crate::text::{
    chars_eq, rfind_char, rfind_char_index, split_char, split_chars, str_chars, str_to_string,
    string_append, string_from_chars, sub_chars, vecs_view,
};
use crate::types::PackageId;

verus! {

/// The `bin` field of a `package.json`: one path (named after the package)
/// or named paths.
#[derive(Debug, Clone)]
pub enum PackageBinField {
    Single(String),
    Multiple(Vec<(String, String)>),
}

/// The parts of an installed `package.json` that bin linking reads.
#[derive(Debug, Clone)]
pub struct InstalledPackageManifest {
    pub name: String,
    pub bin: Option<PackageBinField>,
}

/// The text after the last `/` (all of it when there is none).
pub open spec fn last_segment(name: Seq<char>) -> Seq<char> {
    match rfind_char(name, '/') {
        Some(k) => name.skip(k + 1),
        None => name,
    }
}

pub open spec fn pairs_view(v: Seq<(String, String)>) -> Seq<(Seq<char>, Seq<char>)> {
    v.map_values(|p: (String, String)| (p.0@, p.1@))
}

/// The executables a package declares, as (name, relative target): a single
/// path is named after the package without its scope.
pub open spec fn spec_bin_entries(m: InstalledPackageManifest) -> Seq<(Seq<char>, Seq<char>)> {
    match m.bin {
        Some(PackageBinField::Single(path)) => seq![(last_segment(m.name@), path@)],
        Some(PackageBinField::Multiple(entries)) => pairs_view(entries@),
        None => Seq::empty(),
    }
}

pub fn package_bin_entries(manifest: &InstalledPackageManifest) -> (r: Vec<(String, String)>)
    ensures
        pairs_view(r@) == spec_bin_entries(*manifest),
        manifest.bin matches Some(PackageBinField::Multiple(entries)) ==> r.len() == entries.len()
            && forall|i: int|
            0 <= i < r.len() ==> (#[trigger] r@[i]).0@ == entries@[i].0@ && r@[i].1@ == entries@[i].1@,
        manifest.bin matches Some(PackageBinField::Single(path)) ==> r.len() == 1 && r@[0].1@ == path@
            && manifest.name@ == manifest.name@.take(manifest.name@.len() - r@[0].0@.len()) + r@[0].0@,
        manifest.bin is None ==> r.len() == 0,
{
    let mut out: Vec<(String, String)> = Vec::new();
    match &manifest.bin {
        Some(PackageBinField::Single(path)) => {
            let name = str_chars(manifest.name.as_str());
            let short = match rfind_char_index(&name, '/') {
                Some(k) => sub_chars(&name, k + 1, name.len()),
                None => name,
            };
            let item = (string_from_chars(&short), str_to_string(path.as_str()));
            out.push(item);
            proof {
                assert(pairs_view(out@) =~= seq![(item.0@, item.1@)]);
            }
        },
        Some(PackageBinField::Multiple(entries)) => {
            let mut i: usize = 0;
            while i < entries.len()
                invariant
                    i <= entries.len(),
                    pairs_view(out@) == pairs_view(entries@).take(i as int),
                decreases entries.len() - i,
            {
                let item = (str_to_string(entries[i].0.as_str()), str_to_string(entries[i].1.as_str()));
                let ghost before = out@;
                out.push(item);
                proof {
                    assert(pairs_view(out@) =~= pairs_view(before).push((item.0@, item.1@)));
                    assert(pairs_view(entries@).take(i + 1) =~= pairs_view(entries@).take(i as int).push(
                        (entries@[i as int].0@, entries@[i as int].1@),
                    ));
                }
                i = i + 1;
            }
            proof {
                assert(pairs_view(entries@).take(entries.len() as int) =~= pairs_view(entries@));
            }
        },
        None => {
            proof {
                assert(pairs_view(out@) =~= Seq::<(Seq<char>, Seq<char>)>::empty());
            }
        },
    }
    proof {
        law_bin_entries_are_declared(*manifest);
        assert(pairs_view(out@).len() == out@.len());
        assert forall|i: int| 0 <= i < out@.len() implies pairs_view(out@)[i] == (
            out@[i].0@,
            out@[i].1@,
        ) by {}
        if out@.len() > 0 {
            assert(pairs_view(out@)[0] == (out@[0].0@, out@[0].1@));
        }
        match &manifest.bin {
            Some(PackageBinField::Multiple(entries)) => {
                assert forall|i: int| 0 <= i < out@.len() implies (#[trigger] out@[i]).0@ == entries@[i].0@
                    && out@[i].1@ == entries@[i].1@ by {
                    assert(pairs_view(out@)[i] == spec_bin_entries(*manifest)[i]);
                }
            },
            _ => {},
        }
    }
    out
}

/// A package's executables are the ones it declares: a `bin` map gives
/// its (command name, relative target) pairs as declared, in declaration
/// order; a single path gives one command, named by the end of the package
/// name, for that path; no `bin` gives none.
pub proof fn law_bin_entries_are_declared(m: InstalledPackageManifest)
    ensures
        m.bin matches Some(PackageBinField::Multiple(entries)) ==> spec_bin_entries(m).len()
            == entries.len() && forall|i: int|
            0 <= i < entries.len() ==> (#[trigger] spec_bin_entries(m)[i]).0 == entries@[i].0@
                && spec_bin_entries(m)[i].1 == entries@[i].1@,
        m.bin matches Some(PackageBinField::Single(path)) ==> spec_bin_entries(m).len() == 1
            && spec_bin_entries(m)[0].1 == path@ && m.name@ == m.name@.take(
            m.name@.len() - spec_bin_entries(m)[0].0.len(),
        ) + spec_bin_entries(m)[0].0,
        m.bin is None ==> spec_bin_entries(m).len() == 0,
{
    if m.bin matches Some(PackageBinField::Single(_)) {
        lemma_last_segment_suffix(m.name@);
    }
}

proof fn lemma_rfind_bounds(s: Seq<char>, c: char)
    ensures
        rfind_char(s, c) matches Some(k) ==> 0 <= k < s.len(),
    decreases s.len(),
{
    if s.len() > 0 && s.last() != c {
        lemma_rfind_bounds(s.drop_last(), c);
    }
}

proof fn lemma_last_segment_suffix(name: Seq<char>)
    ensures
        last_segment(name).len() <= name.len(),
        name == name.take(name.len() - last_segment(name).len()) + last_segment(name),
{
    lemma_rfind_bounds(name, '/');
    match rfind_char(name, '/') {
        Some(k) => {
            assert(name =~= name.take(k + 1) + name.skip(k + 1));
        },
        None => {
            assert(name.take(0) =~= Seq::<char>::empty());
            assert(name =~= Seq::<char>::empty() + name);
        },
    }
}

/// A declared target is refused when one of its segments is `..`.
pub open spec fn spec_has_parent_segment(path: Seq<char>) -> bool {
    split_char(path, '/').contains(".."@)
}

pub fn bin_target_has_parent_segment(relative_target: &str) -> (r: bool)
    ensures
        r == spec_has_parent_segment(relative_target@),
{
    let segs = split_chars(&str_chars(relative_target), '/');
    let dotdot = str_chars("..");
    let mut i: usize = 0;
    while i < segs.len()
        invariant
            i <= segs.len(),
            dotdot@ == ".."@,
            vecs_view(segs@) == split_char(relative_target@, '/'),
            forall|k: int| 0 <= k < i ==> vecs_view(segs@)[k] != ".."@,
        decreases segs.len() - i,
    {
        if chars_eq(&segs[i], &dotdot) {
            proof {
                assert(split_char(relative_target@, '/')[i as int] == ".."@);
            }
            return true;
        }
        i = i + 1;
    }
    proof {
        if split_char(relative_target@, '/').contains(".."@) {
            let k = choose|k: int|
                0 <= k < split_char(relative_target@, '/').len() && split_char(
                    relative_target@,
                    '/',
                )[k] == ".."@;
            assert(vecs_view(segs@)[k] != ".."@);
        }
    }
    false
}

/// `t` occurs in `s` at position `i`.
pub open spec fn occurs_at(s: Seq<char>, t: Seq<char>, i: int) -> bool {
    0 <= i && i + t.len() <= s.len() && s.subrange(i, i + t.len()) == t
}

/// `t` occurs in `s` (`str::contains`).
pub open spec fn contains_text(s: Seq<char>, t: Seq<char>) -> bool {
    exists|i: int| #[trigger] occurs_at(s, t, i)
}

pub fn text_contains(s: &Vec<char>, t: &Vec<char>) -> (r: bool)
    ensures
        r == contains_text(s@, t@),
{
    if t.len() > s.len() {
        proof {
            assert forall|i: int| !#[trigger] occurs_at(s@, t@, i) by {}
        }
        return false;
    }
    let last = s.len() - t.len();
    let mut i: usize = 0;
    loop
        invariant
            t.len() <= s.len(),
            last == s.len() - t.len(),
            i <= last,
            forall|k: int| 0 <= k < i ==> !#[trigger] occurs_at(s@, t@, k),
        decreases last - i,
    {
        let piece = sub_chars(s, i, i + t.len());
        if chars_eq(&piece, t) {
            proof {
                assert(occurs_at(s@, t@, i as int));
            }
            return true;
        }
        if i == last {
            proof {
                assert forall|k: int| !#[trigger] occurs_at(s@, t@, k) by {
                    if 0 <= k < i {
                    }
                }
            }
            return false;
        }
        i = i + 1;
    }
}

/// The virtual-store key of a package: its name with `/` as `+`, `@`, its
/// version.
pub open spec fn spec_bin_vstore_key(id: PackageId) -> Seq<char> {
    plus_name(id.name@) + "@"@ + id.version@
}

/// A bin link that resolves into a virtual store (`.megagate/`) is still
/// wanted when it resolves inside the `node_modules` of one of the root
/// packages.
pub open spec fn spec_link_still_expected(resolved: Seq<char>, roots: Seq<PackageId>) -> bool {
    exists|k: int|
        0 <= k < roots.len() && contains_text(
            resolved,
            ".megagate/"@ + spec_bin_vstore_key(#[trigger] roots[k]) + "/node_modules/"@,
        )
}

/// What happens to an existing link in `.bin` under the strict layout.
#[derive(Debug, Clone, Copy, PartialEq, Eq, Structural)]
pub enum BinLinkAction {
    Keep,
    Remove,
}

fn vstore_marker(id: &PackageId) -> (r: Vec<char>)
    ensures
        r@ == ".megagate/"@ + spec_bin_vstore_key(*id) + "/node_modules/"@,
{
    let chars = str_chars(id.name.as_str());
    let mut out = str_chars(".megagate/");
    let mut i: usize = 0;
    let ghost start = out@;
    while i < chars.len()
        invariant
            i <= chars.len(),
            chars@ == id.name@,
            out@ == start + plus_name(chars@.take(i as int)),
        decreases chars.len() - i,
    {
        let c = chars[i];
        out.push(if c == '/' { '+' } else { c });
        proof {
            assert(plus_name(chars@.take(i + 1)) =~= plus_name(chars@.take(i as int)).push(
                if c == '/' { '+' } else { c },
            ));
        }
        i = i + 1;
    }
    proof {
        assert(chars@.take(chars@.len() as int) =~= chars@);
    }
    let mut s = string_from_chars(&out);
    string_append(&mut s, "@");
    string_append(&mut s, id.version.as_str());
    string_append(&mut s, "/node_modules/");
    let r = str_chars(s.as_str());
    proof {
        assert(r@ =~= ".megagate/"@ + spec_bin_vstore_key(*id) + "/node_modules/"@);
    }
    r
}

/// A link whose target cannot be resolved is removed; one that resolves
/// outside any virtual store is kept; one into a virtual store is kept only
/// while still expected (see [`spec_link_still_expected`]).
pub fn bin_link_action(resolved: Option<&str>, roots: &Vec<PackageId>) -> (r: BinLinkAction)
    ensures
        r == match resolved {
            None => BinLinkAction::Remove,
            Some(p) => if !contains_text(p@, ".megagate/"@) || spec_link_still_expected(p@, roots@) {
                BinLinkAction::Keep
            } else {
                BinLinkAction::Remove
            },
        },
{
    match resolved {
        None => BinLinkAction::Remove,
        Some(p) => {
            let pc = str_chars(p);
            let store = str_chars(".megagate/");
            if !text_contains(&pc, &store) {
                return BinLinkAction::Keep;
            }
            let mut i: usize = 0;
            while i < roots.len()
                invariant
                    i <= roots.len(),
                    resolved == Some(p),
                    pc@ == p@,
                    forall|k: int|
                        0 <= k < i ==> !contains_text(
                            p@,
                            ".megagate/"@ + spec_bin_vstore_key(#[trigger] roots@[k]) + "/node_modules/"@,
                        ),
                decreases roots.len() - i,
            {
                let marker = vstore_marker(&roots[i]);
                if text_contains(&pc, &marker) {
                    proof {
                        assert(contains_text(
                            p@,
                            ".megagate/"@ + spec_bin_vstore_key(roots@[i as int]) + "/node_modules/"@,
                        ));
                        assert(spec_link_still_expected(p@, roots@));
                    }
                    return BinLinkAction::Keep;
                }
                i = i + 1;
            }
            BinLinkAction::Remove
        },
    }
}

/// The non-empty pieces of a `/`-separated path.
pub open spec fn path_segments(p: Seq<char>) -> Seq<Seq<char>> {
    split_char(p, '/').filter(|piece: Seq<char>| piece.len() > 0)
}

pub open spec fn is_rooted(p: Seq<char>) -> bool {
    p.len() > 0 && p[0] == '/'
}

/// For canonical paths (no `.` or `..` pieces, as a resolved link target
/// and package directory are), `path` lies inside `base`: both rooted or
/// both relative, and the segments of `base` begin those of `path`.
pub open spec fn spec_path_within(path: Seq<char>, base: Seq<char>) -> bool {
    &&& is_rooted(path) == is_rooted(base)
    &&& path_segments(base).len() <= path_segments(path).len()
    &&& path_segments(path).take(path_segments(base).len() as int) == path_segments(base)
}

fn segments_of(p: &str) -> (r: Vec<Vec<char>>)
    ensures
        vecs_view(r@) == path_segments(p@),
{
    let pieces = split_chars(&str_chars(p), '/');
    let ghost all = vecs_view(pieces@);
    let ghost pred = |piece: Seq<char>| piece.len() > 0;
    let mut out: Vec<Vec<char>> = Vec::new();
    let mut i: usize = 0;
    while i < pieces.len()
        invariant
            i <= pieces.len(),
            all == vecs_view(pieces@),
            all.len() == pieces@.len(),
            pred == (|piece: Seq<char>| piece.len() > 0),
            vecs_view(out@) == all.take(i as int).filter(pred),
        decreases pieces.len() - i,
    {
        proof {
            let next = all.take(i + 1);
            assert(next.drop_last() == all.take(i as int));
            assert(next.last() == pieces@[i as int]@);
            reveal_with_fuel(Seq::filter, 2);
            assert(next.filter(pred) == (if pred(next.last()) {
                all.take(i as int).filter(pred).push(next.last())
            } else {
                all.take(i as int).filter(pred)
            }));
        }
        if pieces[i].len() > 0 {
            let ghost before = out@;
            out.push(sub_chars(&pieces[i], 0, pieces[i].len()));
            proof {
                assert(pieces@[i as int]@.subrange(0, pieces@[i as int]@.len() as int) =~= pieces@[i as int]@);
                assert(vecs_view(out@) == vecs_view(before).push(out@[out@.len() - 1]@));
            }
        }
        i = i + 1;
    }
    proof {
        assert(all.take(pieces.len() as int) == all);
    }
    out
}

/// Whether a resolved bin target stays inside the (resolved) directory of
/// the package that declares it.
pub fn bin_target_within_package(target: &str, package_dir: &str) -> (r: bool)
    ensures
        r == spec_path_within(target@, package_dir@),
{
    let t = str_chars(target);
    let d = str_chars(package_dir);
    let t_rooted = t.len() > 0 && t[0] == '/';
    let d_rooted = d.len() > 0 && d[0] == '/';
    if t_rooted != d_rooted {
        return false;
    }
    let ts = segments_of(target);
    let ds = segments_of(package_dir);
    if ds.len() > ts.len() {
        return false;
    }
    let ghost tv = vecs_view(ts@);
    let ghost dv = vecs_view(ds@);
    let mut i: usize = 0;
    while i < ds.len()
        invariant
            i <= ds.len() <= ts.len(),
            tv == vecs_view(ts@),
            dv == vecs_view(ds@),
            tv == path_segments(target@),
            dv == path_segments(package_dir@),
            is_rooted(target@) == is_rooted(package_dir@),
            forall|k: int| 0 <= k < i ==> tv[k] == dv[k],
        decreases ds.len() - i,
    {
        let same = chars_eq(&ts[i], &ds[i]);
        proof {
            assert(tv[i as int] == ts@[i as int]@);
            assert(dv[i as int] == ds@[i as int]@);
        }
        if !same {
            proof {
                assert(tv[i as int] == ts@[i as int]@);
                assert(dv[i as int] == ds@[i as int]@);
                assert(tv.take(dv.len() as int)[i as int] != dv[i as int]);
            }
            return false;
        }
        i = i + 1;
    }
    proof {
        assert(tv.take(dv.len() as int) =~= dv);
    }
    true
}

} // verus!
