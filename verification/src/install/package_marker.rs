//! Markers of extracted package roots and the content signature of a
//! package tarball: which files it holds, their sizes, and a digest of that
//! file tree.

use vstd::prelude::*;
use vstd::string::StringSliceAdditionalSpecFns;
use vstd::utf8::encode_utf8;
use crate::install::integrity::{sha256, sha256_digest};
use crate::order::{
    chars_lt, lemma_path_size_le_total, lemma_pick_multiset, order_by_text, path_size_le_rel, pick,
    stable_order_by_text, text_before,
};
use crate::paths::{join, path_join};
use crate::text::{
    lemma_find_char_found,
    opt_string_view,
    chars_eq, str_eq, find_char, find_char_index, push_decimal, spec_decimal, spec_hex, split_char,
    split_chars, str_chars, str_to_string, string_append, string_from_chars, string_push, sub_chars,
    trim, trim_chars, vecs_view, hex_encode,
};
use crate::types::ResolvedPackage;

verus! {

/// What an extracted package root records about the tarball it came from.
#[derive(Debug, Clone)]
pub struct ExtractedPackageMarker {
    pub schema_version: u32,
    pub name: String,
    pub version: String,
    pub integrity: Option<String>,
    pub tarball_sha256: String,
    pub file_count: u64,
    pub unpacked_size: u64,
    pub file_tree_sha256: String,
}

/// The file tree of a tarball: number of files, their total size
/// (saturating), and the hex SHA-256 of the sorted `path\0size\n` lines.
#[derive(Debug, Clone)]
pub struct TarballContentSignature {
    pub file_count: u64,
    pub unpacked_size: u64,
    pub file_tree_sha256: String,
}

/// `<root>/.magicore-package-root.json`.
pub fn extracted_package_marker_path(root: &str) -> (r: String)
    ensures
        r@ == path_join(root@, ".magicore-package-root.json"@),
{
    join(root, ".magicore-package-root.json")
}

/// Lowercase hex SHA-256 of `bytes`.
pub fn compute_sha256_hex(bytes: &[u8]) -> (r: String)
    ensures
        r@ == spec_hex(sha256_digest(bytes@)),
{
    let d = sha256(bytes);
    hex_encode(d.as_slice())
}

/// How a tarball is identified in a marker: by its SRI string when known,
/// else by the hex SHA-256 of its bytes.
pub open spec fn spec_tarball_fingerprint(integrity: Seq<char>, bytes: Seq<u8>) -> Seq<char> {
    if integrity.len() == 0 {
        spec_hex(sha256_digest(bytes))
    } else {
        "integrity:"@ + integrity
    }
}

/// The marker expected for `pkg` extracted from `tarball_bytes`, without a
/// content signature (schema 2).
pub fn expected_extracted_package_marker_fast(pkg: &ResolvedPackage, tarball_bytes: &[u8]) -> (r:
    ExtractedPackageMarker)
    ensures
        r.schema_version == 2,
        r.name@ == pkg.id.name@,
        r.version@ == pkg.id.version@,
        opt_string_view(r.integrity) == if pkg.integrity@.len() == 0 {
            None::<Seq<char>>
        } else {
            Some(pkg.integrity@)
        },
        r.tarball_sha256@ == spec_tarball_fingerprint(pkg.integrity@, tarball_bytes@),
        r.file_count == 0,
        r.unpacked_size == 0,
        r.file_tree_sha256@.len() == 0,
{
    let empty = pkg.integrity.as_str().is_empty();
    let fingerprint = if empty {
        compute_sha256_hex(tarball_bytes)
    } else {
        let mut f = str_to_string("integrity:");
        string_append(&mut f, pkg.integrity.as_str());
        f
    };
    ExtractedPackageMarker {
        schema_version: 2,
        name: str_to_string(pkg.id.name.as_str()),
        version: str_to_string(pkg.id.version.as_str()),
        integrity: if empty {
            None
        } else {
            Some(str_to_string(pkg.integrity.as_str()))
        },
        tarball_sha256: fingerprint,
        file_count: 0,
        unpacked_size: 0,
        file_tree_sha256: string_from_chars(&Vec::new()),
    }
}

fn opt_str_eq(a: &Option<String>, b: &Option<String>) -> (r: bool)
    ensures
        r == (opt_string_view(*a) == opt_string_view(*b)),
{
    match (a, b) {
        (Some(x), Some(y)) => str_eq(x.as_str(), y.as_str()),
        (None, None) => true,
        _ => false,
    }
}

/// A marker matches the expected one when it is of schema 2 and records the
/// same package, version, integrity and tarball fingerprint.
pub fn extracted_marker_matches_fast(
    marker: &ExtractedPackageMarker,
    expected: &ExtractedPackageMarker,
) -> (r: bool)
    ensures
        r == (marker.schema_version == 2 && marker.name@ == expected.name@ && marker.version@
            == expected.version@ && opt_string_view(marker.integrity) == opt_string_view(expected.integrity)
            && marker.tarball_sha256@ == expected.tarball_sha256@),
{
    marker.schema_version == 2 && str_eq(marker.name.as_str(), expected.name.as_str()) && str_eq(
        marker.version.as_str(),
        expected.version.as_str(),
    ) && opt_str_eq(&marker.integrity, &expected.integrity) && str_eq(
        marker.tarball_sha256.as_str(),
        expected.tarball_sha256.as_str(),
    )
}

/// A marker carries a content signature when it counts files and bytes and
/// has a non-blank tree digest.
pub fn extracted_marker_has_content_signature(marker: &ExtractedPackageMarker) -> (r: bool)
    ensures
        r == (marker.file_count > 0 && marker.unpacked_size > 0 && trim(marker.file_tree_sha256@).len()
            > 0),
{
    marker.file_count > 0 && marker.unpacked_size > 0 && trim_chars(
        &str_chars(marker.file_tree_sha256.as_str()),
    ).len() > 0
}

/// Field-by-field equality of two markers.
pub fn markers_equal(a: &ExtractedPackageMarker, b: &ExtractedPackageMarker) -> (r: bool)
    ensures
        r == (a.schema_version == b.schema_version && a.name@ == b.name@ && a.version@ == b.version@
            && opt_string_view(a.integrity) == opt_string_view(b.integrity) && a.tarball_sha256@
            == b.tarball_sha256@ && a.file_count == b.file_count && a.unpacked_size
            == b.unpacked_size && a.file_tree_sha256@ == b.file_tree_sha256@),
{
    a.schema_version == b.schema_version && str_eq(a.name.as_str(), b.name.as_str()) && str_eq(
        a.version.as_str(),
        b.version.as_str(),
    ) && opt_str_eq(&a.integrity, &b.integrity) && str_eq(
        a.tarball_sha256.as_str(),
        b.tarball_sha256.as_str(),
    ) && a.file_count == b.file_count && a.unpacked_size == b.unpacked_size && str_eq(
        a.file_tree_sha256.as_str(),
        b.file_tree_sha256.as_str(),
    )
}

/// The named segments of a slash-separated path: empty, `.` and `..`
/// segments are left out.
pub open spec fn normal_segments(segs: Seq<Seq<char>>) -> Seq<Seq<char>>
    decreases segs.len(),
{
    if segs.len() == 0 {
        Seq::empty()
    } else {
        let r = normal_segments(segs.drop_last());
        let x = segs.last();
        if x.len() == 0 || x == "."@ || x == ".."@ {
            r
        } else {
            r.push(x)
        }
    }
}

/// Normalizing keeps only named segments: none is empty, `.` or `..`, so
/// a normalized path cannot climb out of the package root; and a path that
/// already has only named segments keeps all of them.
pub proof fn law_normal_segments_named(segs: Seq<Seq<char>>)
    ensures
        forall|i: int|
            0 <= i < normal_segments(segs).len() ==> (#[trigger] normal_segments(segs)[i]).len() > 0
                && normal_segments(segs)[i] != "."@ && normal_segments(segs)[i] != ".."@,
        normal_segments(segs).len() <= segs.len(),
        (forall|i: int| 0 <= i < segs.len() ==> (#[trigger] segs[i]).len() > 0 && segs[i] != "."@ && segs[i] != ".."@)
            ==> normal_segments(segs) == segs,
    decreases segs.len(),
{
    if segs.len() > 0 {
        law_normal_segments_named(segs.drop_last());
        if forall|i: int| 0 <= i < segs.len() ==> (#[trigger] segs[i]).len() > 0 && segs[i] != "."@ && segs[i] != ".."@ {
            assert forall|i: int| 0 <= i < segs.drop_last().len() implies (#[trigger] segs.drop_last()[i]).len() > 0
                && segs.drop_last()[i] != "."@ && segs.drop_last()[i] != ".."@ by {
                assert(segs.drop_last()[i] == segs[i]);
            }
            assert(segs[segs.len() - 1] == segs.last());
            assert(segs.drop_last().push(segs.last()) =~= segs);
        }
    }
}

/// Segments joined with `/`.
pub open spec fn join_slash(segs: Seq<Seq<char>>) -> Seq<char>
    decreases segs.len(),
{
    if segs.len() == 0 {
        Seq::empty()
    } else if segs.len() == 1 {
        segs[0]
    } else {
        join_slash(segs.drop_last()) + "/"@ + segs.last()
    }
}

/// The normalized form of a path: its named segments joined with `/`.
pub open spec fn spec_signature_path(path: Seq<char>) -> Seq<char> {
    join_slash(normal_segments(split_char(path, '/')))
}

fn normal_segments_of(segs: &Vec<Vec<char>>) -> (r: Vec<Vec<char>>)
    ensures
        vecs_view(r@) == normal_segments(vecs_view(segs@)),
{
    let dot = str_chars(".");
    let dotdot = str_chars("..");
    let mut out: Vec<Vec<char>> = Vec::new();
    let mut i: usize = 0;
    while i < segs.len()
        invariant
            i <= segs.len(),
            dot@ == "."@,
            dotdot@ == ".."@,
            vecs_view(out@) == normal_segments(vecs_view(segs@).take(i as int)),
        decreases segs.len() - i,
    {
        let x = &segs[i];
        proof {
            assert(vecs_view(segs@).take(i + 1).drop_last() =~= vecs_view(segs@).take(i as int));
            assert(vecs_view(segs@).take(i + 1).last() == x@);
        }
        if !(x.len() == 0 || chars_eq(x, &dot) || chars_eq(x, &dotdot)) {
            let ghost before = out@;
            out.push(x.clone());
            proof {
                assert(vecs_view(out@) =~= vecs_view(before).push(x@));
            }
        }
        i = i + 1;
    }
    proof {
        assert(vecs_view(segs@).take(segs.len() as int) =~= vecs_view(segs@));
    }
    out
}

fn join_slash_of(segs: &Vec<Vec<char>>) -> (r: String)
    ensures
        r@ == join_slash(vecs_view(segs@)),
{
    let mut out = string_from_chars(&Vec::new());
    let mut i: usize = 0;
    while i < segs.len()
        invariant
            i <= segs.len(),
            out@ == join_slash(vecs_view(segs@).take(i as int)),
        decreases segs.len() - i,
    {
        proof {
            assert(vecs_view(segs@).take(i + 1).drop_last() =~= vecs_view(segs@).take(i as int));
            assert(vecs_view(segs@).take(i + 1).last() == segs@[i as int]@);
        }
        if i > 0 {
            string_append(&mut out, "/");
        }
        let piece = string_from_chars(&segs[i]);
        string_append(&mut out, piece.as_str());
        proof {
            if i == 0 {
                assert(vecs_view(segs@).take(1)[0] == segs@[0]@);
            }
        }
        i = i + 1;
    }
    proof {
        assert(vecs_view(segs@).take(segs.len() as int) =~= vecs_view(segs@));
    }
    out
}

/// The path's named segments joined with `/` (`.`, `..`, empty segments and
/// a leading `/` disappear).
pub fn path_to_signature_string(path: &str) -> (r: String)
    ensures
        r@ == spec_signature_path(path@),
{
    let segs = split_chars(&str_chars(path), '/');
    let normal = normal_segments_of(&segs);
    join_slash_of(&normal)
}

/// Why a tarball has no content signature.
#[derive(Debug, Clone, PartialEq, Eq)]
pub enum SignatureError {
    /// The archive could not be read.
    Read { message: String },
    /// A symbolic or hard link.
    LinkNotAllowed { path: String },
    /// An entry that is neither a file, a directory nor a pax header.
    UnsupportedEntry { path: String },
    /// An absolute path or one that climbs with `..`.
    UnsafePath { path: String },
    /// A path with no named segment.
    EmptyPath,
    /// A file whose size field is unreadable.
    BadSize { path: String },
}

/// Whether a path may enter a signature: relative, without `..`, with at
/// least one named segment.
pub open spec fn spec_path_is_safe(path: Seq<char>) -> bool {
    !(path.len() > 0 && path[0] == '/') && !split_char(path, '/').contains(".."@)
}

/// The signature path of a tar entry, or why it is refused.
pub open spec fn spec_sanitize(path: Seq<char>) -> Result<Seq<char>, int> {
    if !spec_path_is_safe(path) {
        Err(0)
    } else if normal_segments(split_char(path, '/')).len() == 0 {
        Err(1)
    } else {
        Ok(spec_signature_path(path))
    }
}

pub open spec fn sanitize_view(r: Result<String, SignatureError>) -> Result<Seq<char>, int> {
    match r {
        Ok(s) => Ok(s@),
        Err(SignatureError::EmptyPath) => Err(1),
        Err(_) => Err(0),
    }
}

/// Checks and normalizes a tar entry path.
pub fn sanitize_tarball_signature_path(path: &str) -> (r: Result<String, SignatureError>)
    ensures
        sanitize_view(r) == spec_sanitize(path@),
        r matches Err(e) ==> (e matches SignatureError::UnsafePath { path: p } && p@ == path@) || (
        e is EmptyPath),
{
    let chars = str_chars(path);
    let segs = split_chars(&chars, '/');
    let dotdot = str_chars("..");
    let mut i: usize = 0;
    while i < segs.len()
        invariant
            i <= segs.len(),
            dotdot@ == ".."@,
            vecs_view(segs@) == split_char(path@, '/'),
            forall|k: int| 0 <= k < i ==> vecs_view(segs@)[k] != ".."@,
        decreases segs.len() - i,
    {
        if chars_eq(&segs[i], &dotdot) {
            proof {
                assert(vecs_view(segs@)[i as int] == ".."@);
                assert(split_char(path@, '/')[i as int] == ".."@);
                assert(split_char(path@, '/').contains(".."@));
            }
            return Err(SignatureError::UnsafePath { path: str_to_string(path) });
        }
        i = i + 1;
    }
    proof {
        if split_char(path@, '/').contains(".."@) {
            let k = choose|k: int| 0 <= k < split_char(path@, '/').len() && split_char(path@, '/')[k]
                == ".."@;
            assert(vecs_view(segs@)[k] != ".."@);
        }
    }
    if chars.len() > 0 && chars[0] == '/' {
        return Err(SignatureError::UnsafePath { path: str_to_string(path) });
    }
    let normal = normal_segments_of(&segs);
    if normal.len() == 0 {
        return Err(SignatureError::EmptyPath);
    }
    Ok(join_slash_of(&normal))
}

/// The first segment of a path (`split('/').next()`).
pub open spec fn first_segment(path: Seq<char>) -> Seq<char> {
    match find_char(path, '/') {
        Some(k) => path.take(k),
        None => path,
    }
}

pub open spec fn files_view(files: Seq<(String, u64)>) -> Seq<(Seq<char>, u64)> {
    files.map_values(|f: (String, u64)| (f.0@, f.1))
}

/// The root directory shared by every path, when there is one: the first
/// segment of the first path, if it is non-empty and every path starts with
/// that same segment.
pub open spec fn spec_common_root(files: Seq<(Seq<char>, u64)>) -> Option<Seq<char>> {
    if files.len() == 0 {
        None
    } else if first_segment(files[0].0).len() == 0 {
        None
    } else if forall|i: int| 0 <= i < files.len() ==> first_segment(#[trigger] files[i].0)
        == first_segment(files[0].0) {
        Some(first_segment(files[0].0))
    } else {
        None
    }
}

fn first_segment_of(path: &Vec<char>) -> (r: Vec<char>)
    ensures
        r@ == first_segment(path@),
{
    match find_char_index(path, '/') {
        Some(k) => sub_chars(path, 0, k),
        None => path.clone(),
    }
}

/// See [`spec_common_root`].
pub fn common_tarball_root_prefix(files: &Vec<(String, u64)>) -> (r: Option<String>)
    ensures
        match r {
            Some(s) => spec_common_root(files_view(files@)) == Some(s@),
            None => spec_common_root(files_view(files@)).is_none(),
        },
{
    let ghost fv = files_view(files@);
    if files.len() == 0 {
        return None;
    }
    let first = first_segment_of(&str_chars(files[0].0.as_str()));
    proof {
        assert(fv[0].0 == files@[0].0@);
    }
    if first.len() == 0 {
        return None;
    }
    let mut i: usize = 1;
    while i < files.len()
        invariant
            1 <= i <= files.len(),
            fv == files_view(files@),
            fv.len() == files.len(),
            first@ == first_segment(fv[0].0),
            forall|k: int| 0 <= k < i ==> first_segment(#[trigger] fv[k].0) == first@,
        decreases files.len() - i,
    {
        let seg = first_segment_of(&str_chars(files[i].0.as_str()));
        proof {
            assert(fv[i as int].0 == files@[i as int].0@);
        }
        if !chars_eq(&seg, &first) {
            return None;
        }
        i = i + 1;
    }
    Some(string_from_chars(&first))
}

/// `path` with the shared root directory and the `/` after it removed, when
/// it starts that way.
pub open spec fn strip_root(path: Seq<char>, root: Option<Seq<char>>) -> Seq<char> {
    match root {
        Some(p) => if path.len() > p.len() && path.take(p.len() as int) == p && path[p.len() as int]
            == '/' {
            path.skip(p.len() as int + 1)
        } else {
            path
        },
        None => path,
    }
}

/// Entries with the shared root removed; entries left empty are dropped.
pub open spec fn normalize_files(files: Seq<(Seq<char>, u64)>, root: Option<Seq<char>>) -> Seq<
    (Seq<char>, u64),
>
    decreases files.len(),
{
    if files.len() == 0 {
        Seq::empty()
    } else {
        let r = normalize_files(files.drop_last(), root);
        let s = strip_root(files.last().0, root);
        if s.len() == 0 {
            r
        } else {
            r.push((s, files.last().1))
        }
    }
}

/// The line hashed for one file.
pub open spec fn sig_line(path: Seq<char>, size: u64) -> Seq<char> {
    path + seq!['\0'] + spec_decimal(size as nat) + seq!['\n']
}

/// The text hashed for a file list, in its order.
pub open spec fn sig_text(files: Seq<(Seq<char>, u64)>) -> Seq<char>
    decreases files.len(),
{
    if files.len() == 0 {
        Seq::empty()
    } else {
        sig_text(files.drop_last()) + sig_line(files.last().0, files.last().1)
    }
}

/// Total size, saturating at `u64::MAX`.
pub open spec fn sat_total(files: Seq<(Seq<char>, u64)>) -> u64
    decreases files.len(),
{
    if files.len() == 0 {
        0
    } else {
        let t = sat_total(files.drop_last()) + files.last().1;
        if t > u64::MAX {
            u64::MAX
        } else {
            t as u64
        }
    }
}

pub open spec fn paths_of(files: Seq<(Seq<char>, u64)>) -> Seq<Seq<char>> {
    files.map_values(|f: (Seq<char>, u64)| f.0)
}

pub open spec fn permuted(files: Seq<(Seq<char>, u64)>, order: Seq<usize>) -> Seq<(Seq<char>, u64)> {
    order.map_values(|k: usize| files[k as int])
}

/// No path occurs twice.
pub open spec fn paths_distinct(files: Seq<(Seq<char>, u64)>) -> bool {
    forall|i: int, j: int| 0 <= i < j < files.len() ==> #[trigger] files[i].0 != #[trigger] files[j].0
}

proof fn lemma_sorted_by_path_size(files: Seq<(Seq<char>, u64)>, order: Seq<usize>)
    requires
        paths_distinct(files),
        stable_order_by_text(order, paths_of(files)),
    ensures
        vstd::relations::sorted_by(permuted(files, order), path_size_le_rel()),
{
    let p = permuted(files, order);
    assert forall|i: int, j: int| 0 <= i < j < p.len() implies #[trigger] path_size_le_rel()(p[i], p[j]) by {
        assert(text_before(paths_of(files), order[i], order[j]));
        assert(order[i] < files.len() && order[j] < files.len());
        if paths_of(files)[order[i] as int] == paths_of(files)[order[j] as int] {
            assert(files[order[i] as int].0 == files[order[j] as int].0);
        }
    }
}

/// The signature of a file list does not depend on the order in which the
/// files are listed: two lists holding the same (path, size) entries, each
/// path once, sort to the same list and so give the same signature. This
/// is what lets the signature of an extracted tree, walked in any order,
/// be compared with that of the archive it came from.
pub proof fn law_signature_ignores_order(
    f1: Seq<(Seq<char>, u64)>,
    f2: Seq<(Seq<char>, u64)>,
    o1: Seq<usize>,
    o2: Seq<usize>,
    s1: TarballContentSignature,
    s2: TarballContentSignature,
)
    requires
        f1.to_multiset() == f2.to_multiset(),
        paths_distinct(f1),
        paths_distinct(f2),
        f1.len() <= usize::MAX,
        f2.len() <= usize::MAX,
        stable_order_by_text(o1, paths_of(f1)),
        stable_order_by_text(o2, paths_of(f2)),
        signature_matches(s1, permuted(f1, o1)),
        signature_matches(s2, permuted(f2, o2)),
    ensures
        permuted(f1, o1) == permuted(f2, o2),
        s1.file_count == s2.file_count,
        s1.unpacked_size == s2.unpacked_size,
        s1.file_tree_sha256@ == s2.file_tree_sha256@,
{
    lemma_sorted_by_path_size(f1, o1);
    lemma_sorted_by_path_size(f2, o2);
    lemma_path_size_le_total();
    assert(permuted(f1, o1) == pick(f1, o1));
    assert(permuted(f2, o2) == pick(f2, o2));
    lemma_pick_multiset(f1, o1);
    lemma_pick_multiset(f2, o2);
    vstd::seq_lib::lemma_sorted_unique(permuted(f1, o1), permuted(f2, o2), path_size_le_rel());
}

/// `files` are the entries of `rel` placed under the directory `root`.
pub open spec fn under_root(files: Seq<(Seq<char>, u64)>, root: Seq<char>, rel: Seq<(Seq<char>, u64)>) -> bool {
    &&& files.len() == rel.len()
    &&& forall|i: int| 0 <= i < files.len() ==> #[trigger] files[i] == (root + "/"@ + rel[i].0, rel[i].1)
}

proof fn lemma_root_segment(root: Seq<char>, rest: Seq<char>)
    requires
        forall|k: int| 0 <= k < root.len() ==> root[k] != '/',
    ensures
        first_segment(root + "/"@ + rest) == root,
        strip_root(root + "/"@ + rest, Some(root)) == rest,
{
    reveal_strlit("/");
    let p = root + "/"@ + rest;
    assert(p[root.len() as int] == '/');
    lemma_find_char_found(p, '/');
    match find_char(p, '/') {
        Some(i) => {
            if i < root.len() {
                assert(p[i] == root[i]);
            }
            assert(i == root.len());
        },
        None => {},
    }
    assert(p.take(root.len() as int) =~= root);
    assert(p.skip(root.len() as int + 1) =~= rest);
}

proof fn lemma_normalize_renamed(
    f1: Seq<(Seq<char>, u64)>,
    f2: Seq<(Seq<char>, u64)>,
    r1: Seq<char>,
    r2: Seq<char>,
    rel: Seq<(Seq<char>, u64)>,
)
    requires
        under_root(f1, r1, rel),
        under_root(f2, r2, rel),
        forall|k: int| 0 <= k < r1.len() ==> r1[k] != '/',
        forall|k: int| 0 <= k < r2.len() ==> r2[k] != '/',
    ensures
        normalize_files(f1, Some(r1)) == normalize_files(f2, Some(r2)),
    decreases f1.len(),
{
    if f1.len() > 0 {
        let n = f1.len() - 1;
        let rel0 = rel.drop_last();
        assert(under_root(f1.drop_last(), r1, rel0)) by {
            assert forall|i: int| 0 <= i < f1.drop_last().len() implies #[trigger] f1.drop_last()[i] == (r1 + "/"@
                + rel0[i].0, rel0[i].1) by {
                assert(f1[i] == (r1 + "/"@ + rel[i].0, rel[i].1));
            }
        }
        assert(under_root(f2.drop_last(), r2, rel0)) by {
            assert forall|i: int| 0 <= i < f2.drop_last().len() implies #[trigger] f2.drop_last()[i] == (r2 + "/"@
                + rel0[i].0, rel0[i].1) by {
                assert(f2[i] == (r2 + "/"@ + rel[i].0, rel[i].1));
            }
        }
        lemma_normalize_renamed(f1.drop_last(), f2.drop_last(), r1, r2, rel0);
        assert(f1[n] == (r1 + "/"@ + rel[n].0, rel[n].1));
        assert(f2[n] == (r2 + "/"@ + rel[n].0, rel[n].1));
        lemma_root_segment(r1, rel[n].0);
        lemma_root_segment(r2, rel[n].0);
    }
}

/// The signature does not depend on the name of the directory that holds
/// the whole package: entries placed under `r1` and the same entries placed
/// under `r2` share that directory as their root, and once it is stripped
/// they are the same list, so they are signed alike (in any order of
/// listing, by [`law_signature_ignores_order`]).
pub proof fn law_signature_ignores_root_name(
    f1: Seq<(Seq<char>, u64)>,
    f2: Seq<(Seq<char>, u64)>,
    r1: Seq<char>,
    r2: Seq<char>,
    rel: Seq<(Seq<char>, u64)>,
)
    requires
        rel.len() > 0,
        r1.len() > 0,
        r2.len() > 0,
        forall|k: int| 0 <= k < r1.len() ==> r1[k] != '/',
        forall|k: int| 0 <= k < r2.len() ==> r2[k] != '/',
        under_root(f1, r1, rel),
        under_root(f2, r2, rel),
    ensures
        spec_common_root(f1) == Some(r1),
        spec_common_root(f2) == Some(r2),
        normalize_files(f1, spec_common_root(f1)) == normalize_files(f2, spec_common_root(f2)),
{
    assert forall|i: int| 0 <= i < f1.len() implies first_segment(#[trigger] f1[i].0) == r1 by {
        lemma_root_segment(r1, rel[i].0);
    }
    assert forall|i: int| 0 <= i < f2.len() implies first_segment(#[trigger] f2[i].0) == r2 by {
        lemma_root_segment(r2, rel[i].0);
    }
    assert(first_segment(f1[0].0) == r1);
    assert(first_segment(f2[0].0) == r2);
    lemma_normalize_renamed(f1, f2, r1, r2, rel);
}

/// The signature of a file list taken in the given order.
pub open spec fn signature_matches(
    sig: TarballContentSignature,
    files: Seq<(Seq<char>, u64)>,
) -> bool {
    &&& sig.file_count == files.len()
    &&& sig.unpacked_size == sat_total(files)
    &&& sig.file_tree_sha256@ == spec_hex(sha256_digest(encode_utf8(sig_text(files))))
}

/// The signature of `files` in the order given.
fn signature_in_order(files: &Vec<(Vec<char>, u64)>) -> (r: TarballContentSignature)
    requires
        files.len() <= u64::MAX,
    ensures
        signature_matches(r, files@.map_values(|f: (Vec<char>, u64)| (f.0@, f.1))),
{
    let ghost fv = files@.map_values(|f: (Vec<char>, u64)| (f.0@, f.1));
    let mut text = string_from_chars(&Vec::new());
    let mut total: u64 = 0;
    let mut i: usize = 0;
    while i < files.len()
        invariant
            i <= files.len(),
            fv == files@.map_values(|f: (Vec<char>, u64)| (f.0@, f.1)),
            text@ == sig_text(fv.take(i as int)),
            total == sat_total(fv.take(i as int)),
        decreases files.len() - i,
    {
        let (p, size) = (&files[i].0, files[i].1);
        proof {
            assert(fv.take(i + 1).drop_last() =~= fv.take(i as int));
            assert(fv.take(i + 1).last() == (p@, size));
        }
        let ps = string_from_chars(p);
        string_append(&mut text, ps.as_str());
        string_push(&mut text, '\0');
        push_decimal(&mut text, size);
        string_push(&mut text, '\n');
        total = total.saturating_add(size);
        i = i + 1;
    }
    proof {
        assert(fv.take(files.len() as int) =~= fv);
    }
    let digest = sha256(text.as_str().as_bytes());
    TarballContentSignature {
        file_count: files.len() as u64,
        unpacked_size: total,
        file_tree_sha256: hex_encode(digest.as_slice()),
    }
}

/// The signature of a file list: sorted by path (files with the same path
/// keep their order), counted, summed and hashed.
pub fn signature_of_files(files: &Vec<(String, u64)>) -> (r: TarballContentSignature)
    requires
        files.len() <= u64::MAX,
    ensures
        exists|order: Seq<usize>|
            stable_order_by_text(order, paths_of(files_view(files@))) && signature_matches(
                r,
                permuted(files_view(files@), order),
            ),
{
    let ghost fv = files_view(files@);
    let mut keys: Vec<Vec<char>> = Vec::new();
    let mut i: usize = 0;
    while i < files.len()
        invariant
            i <= files.len(),
            fv == files_view(files@),
            vecs_view(keys@) == paths_of(fv).take(i as int),
        decreases files.len() - i,
    {
        let k = str_chars(files[i].0.as_str());
        let ghost before = keys@;
        keys.push(k);
        proof {
            assert(vecs_view(keys@) =~= vecs_view(before).push(k@));
            assert(paths_of(fv).take(i + 1) =~= paths_of(fv).take(i as int).push(files@[i as int].0@));
        }
        i = i + 1;
    }
    proof {
        assert(paths_of(fv).take(files.len() as int) =~= paths_of(fv));
    }
    let order = order_by_text(&keys);
    let mut sorted: Vec<(Vec<char>, u64)> = Vec::new();
    let mut j: usize = 0;
    while j < order.len()
        invariant
            j <= order.len(),
            order.len() == files.len(),
            keys.len() == files.len(),
            fv == files_view(files@),
            stable_order_by_text(order@, vecs_view(keys@)),
            sorted@.map_values(|f: (Vec<char>, u64)| (f.0@, f.1)) == permuted(fv, order@).take(
                j as int,
            ),
        decreases order.len() - j,
    {
        let k = order[j];
        let entry = (str_chars(files[k].0.as_str()), files[k].1);
        let ghost before = sorted@;
        sorted.push(entry);
        proof {
            assert(sorted@.map_values(|f: (Vec<char>, u64)| (f.0@, f.1)) =~= before.map_values(
                |f: (Vec<char>, u64)| (f.0@, f.1),
            ).push((entry.0@, entry.1)));
            assert(permuted(fv, order@).take(j + 1) =~= permuted(fv, order@).take(j as int).push(
                fv[k as int],
            ));
        }
        j = j + 1;
    }
    proof {
        assert(permuted(fv, order@).take(order.len() as int) =~= permuted(fv, order@));
    }
    signature_in_order(&sorted)
}


/// One entry of a gzip-compressed tar archive, as the `tar` crate lists it:
/// its type byte (`EntryType::as_byte`, which gives `b'0'` for every regular
/// file), its path (`Entry::path_bytes`, read as UTF-8 with invalid
/// sequences replaced), and its header size when that field is readable.
#[derive(Debug, Clone)]
pub struct TarEntryInfo {
    pub kind: u8,
    pub path: String,
    pub size: Option<u64>,
}

pub open spec fn tar_entries_view(entries: Seq<TarEntryInfo>) -> Seq<(u8, Seq<char>, Option<u64>)> {
    entries.map_values(|e: TarEntryInfo| (e.kind, e.path@, e.size))
}

/// The listing of a gzip-compressed tar archive: the entries read, in
/// order, and the text of the read error that stopped the listing, if one
/// did.
pub uninterp spec fn gzip_tar_listing(bytes: Seq<u8>) -> (Seq<(u8, Seq<char>, Option<u64>)>, Option<Seq<char>>);

/// Lists a gzip-compressed tar archive with `flate2::read::GzDecoder` and
/// `tar::Archive::entries`, stopping at the first read error. The listing
/// is a function of the bytes alone.
#[verifier::external_body]
fn list_gzip_tar(bytes: &[u8]) -> (r: (Vec<TarEntryInfo>, Option<String>))
    ensures
        (tar_entries_view(r.0@), opt_string_view(r.1)) == gzip_tar_listing(bytes@),
{
    let mut archive = tar::Archive::new(flate2::read::GzDecoder::new(bytes));
    let mut out = Vec::new();
    let entries = match archive.entries() {
        Ok(entries) => entries,
        Err(e) => return (out, Some(e.to_string())),
    };
    for entry in entries {
        match entry {
            Ok(en) => out.push(TarEntryInfo { kind: en.header().entry_type().as_byte(), path: String::from_utf8_lossy(&en.path_bytes()).into_owned(), size: en.header().size().ok() }),
            Err(e) => return (out, Some(e.to_string())),
        }
    }
    (out, None)
}

/// What a listed entry contributes: 0 nothing (directory or pax header),
/// 1 a refused link, 2 an unsupported entry, 3 an unsafe path, 4 an empty
/// path, 5 an unreadable size, 6 a file.
pub open spec fn entry_outcome(kind: u8, path: Seq<char>, size: Option<u64>) -> int {
    if kind == 0x35 || kind == 0x67 || kind == 0x78 {
        0
    } else if kind == 0x31 || kind == 0x32 {
        1
    } else if kind != 0x30 {
        2
    } else if spec_sanitize(path) == Err::<Seq<char>, int>(0) {
        3
    } else if spec_sanitize(path) is Err {
        4
    } else if size.is_none() {
        5
    } else {
        6
    }
}

/// The files of a listing (signature path and size), or the first entry
/// that stops it: its outcome and path.
pub open spec fn listing_files(entries: Seq<(u8, Seq<char>, Option<u64>)>) -> Result<
    Seq<(Seq<char>, u64)>,
    (int, Seq<char>),
>
    decreases entries.len(),
{
    if entries.len() == 0 {
        Ok(Seq::empty())
    } else {
        match listing_files(entries.drop_last()) {
            Err(e) => Err(e),
            Ok(files) => {
                let (kind, path, size) = entries.last();
                let o = entry_outcome(kind, path, size);
                if o == 0 {
                    Ok(files)
                } else if o == 6 {
                    Ok(files.push((spec_signature_path(path), size.unwrap())))
                } else {
                    Err((o, path))
                }
            },
        }
    }
}

pub open spec fn error_code(e: SignatureError) -> (int, Seq<char>) {
    match e {
        SignatureError::Read { message } => (7, message@),
        SignatureError::LinkNotAllowed { path } => (1, path@),
        SignatureError::UnsupportedEntry { path } => (2, path@),
        SignatureError::UnsafePath { path } => (3, path@),
        SignatureError::EmptyPath => (4, Seq::empty()),
        SignatureError::BadSize { path } => (5, path@),
    }
}

/// The error reported for an entry that stops a listing (see
/// [`entry_outcome`]); an empty path is reported without the path.
pub open spec fn reported(e: (int, Seq<char>)) -> (int, Seq<char>) {
    if e.0 == 4 {
        (4, Seq::empty())
    } else {
        e
    }
}

fn kind_is(kind: u8, a: u8, b: u8, c: u8) -> (r: bool)
    ensures
        r == (kind == a || kind == b || kind == c),
{
    kind == a || kind == b || kind == c
}

fn strip_root_of(path: &Vec<char>, root: &Option<Vec<char>>) -> (r: Vec<char>)
    ensures
        r@ == strip_root(
            path@,
            match root {
                Some(p) => Some(p@),
                None => None,
            },
        ),
{
    match root {
        Some(p) => {
            if path.len() > p.len() && chars_eq(&sub_chars(path, 0, p.len()), p) && path[p.len()]
                == '/' {
                sub_chars(path, p.len() + 1, path.len())
            } else {
                path.clone()
            }
        },
        None => path.clone(),
    }
}

/// Strips the common root and drops the entries left empty.
fn normalize_listing(files: &Vec<(String, u64)>) -> (r: Vec<(String, u64)>)
    ensures
        files_view(r@) == normalize_files(files_view(files@), spec_common_root(files_view(files@))),
{
    let ghost fv = files_view(files@);
    let root = common_tarball_root_prefix(files);
    let root_chars: Option<Vec<char>> = match &root {
        Some(s) => Some(str_chars(s.as_str())),
        None => None,
    };
    let ghost rv = spec_common_root(fv);
    proof {
        assert(rv == match root_chars {
            Some(p) => Some(p@),
            None => None::<Seq<char>>,
        });
    }
    let mut out: Vec<(String, u64)> = Vec::new();
    let mut i: usize = 0;
    while i < files.len()
        invariant
            i <= files.len(),
            fv == files_view(files@),
            rv == match root_chars {
                Some(p) => Some(p@),
                None => None::<Seq<char>>,
            },
            files_view(out@) == normalize_files(fv.take(i as int), rv),
        decreases files.len() - i,
    {
        proof {
            assert(fv.take(i + 1).drop_last() =~= fv.take(i as int));
            assert(fv.take(i + 1).last() == (files@[i as int].0@, files@[i as int].1));
        }
        let stripped = strip_root_of(&str_chars(files[i].0.as_str()), &root_chars);
        if stripped.len() > 0 {
            let item = (string_from_chars(&stripped), files[i].1);
            let ghost before = out@;
            out.push(item);
            proof {
                assert(files_view(out@) =~= files_view(before).push((item.0@, item.1)));
            }
        }
        i = i + 1;
    }
    proof {
        assert(fv.take(files.len() as int) =~= fv);
    }
    out
}

/// The signature of a tar listing. Directories and pax headers are skipped;
/// links, other entry types, unsafe or empty paths and unreadable sizes stop
/// it with an error; a read error that ended the listing is reported after
/// the entries read before it. The files, with the root directory they all
/// share stripped, are then sorted, counted, summed and hashed.
pub fn content_signature_from_listing(entries: &Vec<TarEntryInfo>, read_error: Option<String>) -> (r:
    Result<TarballContentSignature, SignatureError>)
    requires
        entries.len() <= u64::MAX,
    ensures
        match listing_files(tar_entries_view(entries@)) {
            Err(e) => r matches Err(err) && error_code(err) == reported(e),
            Ok(files) => match read_error {
                Some(m) => r matches Err(err) && error_code(err) == (7int, m@),
                None => r matches Ok(sig) && exists|order: Seq<usize>|
                    stable_order_by_text(
                        order,
                        paths_of(normalize_files(files, spec_common_root(files))),
                    ) && signature_matches(
                        sig,
                        permuted(normalize_files(files, spec_common_root(files)), order),
                    ),
            },
        },
{
    let ghost ev = tar_entries_view(entries@);
    let mut files: Vec<(String, u64)> = Vec::new();
    let mut i: usize = 0;
    proof {
        assert(ev.take(0) =~= Seq::<(u8, Seq<char>, Option<u64>)>::empty());
        assert(files_view(files@) =~= Seq::<(Seq<char>, u64)>::empty());
    }
    while i < entries.len()
        invariant
            i <= entries.len(),
            entries.len() <= u64::MAX,
            ev == tar_entries_view(entries@),
            files.len() <= i,
            listing_files(ev.take(i as int)) == Ok::<Seq<(Seq<char>, u64)>, (int, Seq<char>)>(
                files_view(files@),
            ),
        decreases entries.len() - i,
    {
        let e = &entries[i];
        proof {
            assert(ev.take(i + 1).drop_last() =~= ev.take(i as int));
            assert(ev.take(i + 1).last() == (e.kind, e.path@, e.size));
        }
        if kind_is(e.kind, 0x35, 0x67, 0x78) {
            i = i + 1;
            continue;
        }
        if e.kind == 0x31 || e.kind == 0x32 {
            let err = SignatureError::LinkNotAllowed { path: str_to_string(e.path.as_str()) };
            proof {
                lemma_listing_stops(ev, i as int);
            }
            return Err(err);
        }
        if e.kind != 0x30 {
            let err = SignatureError::UnsupportedEntry { path: str_to_string(e.path.as_str()) };
            proof {
                lemma_listing_stops(ev, i as int);
            }
            return Err(err);
        }
        let clean = match sanitize_tarball_signature_path(e.path.as_str()) {
            Ok(c) => c,
            Err(err) => {
                proof {
                    lemma_listing_stops(ev, i as int);
                }
                return Err(err);
            },
        };
        let size = match e.size {
            Some(s) => s,
            None => {
                proof {
                    lemma_listing_stops(ev, i as int);
                }
                return Err(SignatureError::BadSize { path: str_to_string(e.path.as_str()) });
            },
        };
        let ghost before = files@;
        files.push((clean, size));
        proof {
            assert(files_view(files@) =~= files_view(before).push((clean@, size)));
        }
        i = i + 1;
    }
    proof {
        assert(ev.take(entries.len() as int) =~= ev);
    }
    if let Some(m) = read_error {
        return Err(SignatureError::Read { message: m });
    }
    let normalized = normalize_listing(&files);
    proof {
        lemma_normalize_len(files_view(files@), spec_common_root(files_view(files@)));
        assert(files_view(normalized@).len() == normalized@.len());
    }
    let sig = signature_of_files(&normalized);
    Ok(sig)
}

proof fn lemma_normalize_len(files: Seq<(Seq<char>, u64)>, root: Option<Seq<char>>)
    ensures
        normalize_files(files, root).len() <= files.len(),
    decreases files.len(),
{
    if files.len() > 0 {
        lemma_normalize_len(files.drop_last(), root);
    }
}

/// Once an entry stops the listing, the listing of any longer prefix stops
/// with the same error.
proof fn lemma_listing_stops(ev: Seq<(u8, Seq<char>, Option<u64>)>, i: int)
    requires
        0 <= i < ev.len(),
        listing_files(ev.take(i)) is Ok,
        entry_outcome(ev[i].0, ev[i].1, ev[i].2) != 0,
        entry_outcome(ev[i].0, ev[i].1, ev[i].2) != 6,
    ensures
        listing_files(ev) == Err::<Seq<(Seq<char>, u64)>, (int, Seq<char>)>(
            (entry_outcome(ev[i].0, ev[i].1, ev[i].2), ev[i].1),
        ),
    decreases ev.len(),
{
    if ev.len() == i + 1 {
        assert(ev.drop_last() =~= ev.take(i));
    } else {
        assert(ev.drop_last().take(i) =~= ev.take(i));
        lemma_listing_stops(ev.drop_last(), i);
    }
}

/// The contract of [`tarball_content_signature`].
pub open spec fn signature_outcome(bytes: Seq<u8>, r: Result<TarballContentSignature, SignatureError>) -> bool {
    match listing_files(gzip_tar_listing(bytes).0) {
        Err(e) => r matches Err(err) && error_code(err) == reported(e),
        Ok(files) => match gzip_tar_listing(bytes).1 {
            Some(m) => r matches Err(err) && error_code(err) == (7int, m),
            None => r matches Ok(sig) && exists|order: Seq<usize>|
                stable_order_by_text(order, paths_of(normalize_files(files, spec_common_root(files))))
                    && signature_matches(
                    sig,
                    permuted(normalize_files(files, spec_common_root(files)), order),
                ),
        },
    }
}

/// The content signature of a gzip-compressed tarball (see
/// [`content_signature_from_listing`]).
pub fn tarball_content_signature(tarball_bytes: &[u8]) -> (r: Result<
    TarballContentSignature,
    SignatureError,
>)
    ensures
        signature_outcome(tarball_bytes@, r),
{
    let (entries, read_error) = list_gzip_tar(tarball_bytes);
    content_signature_from_listing(&entries, read_error)
}

/// The marker expected for `pkg` extracted from `tarball_bytes`, with the
/// tarball's content signature, or the error that signature gives.
pub fn expected_extracted_package_marker_from_bytes(pkg: &ResolvedPackage, tarball_bytes: &[u8]) -> (r:
    Result<ExtractedPackageMarker, SignatureError>)
    ensures
        exists|s: Result<TarballContentSignature, SignatureError>|
            #[trigger] signature_outcome(tarball_bytes@, s) && match (s, r) {
                (Ok(sig), Ok(m)) => m.file_count == sig.file_count && m.unpacked_size
                    == sig.unpacked_size && m.file_tree_sha256@ == sig.file_tree_sha256@,
                (Err(e1), Err(e2)) => e1 == e2,
                _ => false,
            },
        r matches Ok(m) ==> m.schema_version == 2 && m.name@ == pkg.id.name@ && m.version@
            == pkg.id.version@ && m.tarball_sha256@ == spec_tarball_fingerprint(
            pkg.integrity@,
            tarball_bytes@,
        ),
{
    let mut marker = expected_extracted_package_marker_fast(pkg, tarball_bytes);
    let sig = tarball_content_signature(tarball_bytes);
    match sig {
        Ok(content) => {
            marker.file_count = content.file_count;
            marker.unpacked_size = content.unpacked_size;
            marker.file_tree_sha256 = content.file_tree_sha256;
            Ok(marker)
        },
        Err(e) => Err(e),
    }
}

/// Whether an extracted tree matches a marker's content signature. `files`
/// are the tree's files (paths relative to the root, marker file excluded)
/// with their sizes; a marker without a tree digest never matches.
pub fn extracted_content_matches(expected: &ExtractedPackageMarker, files: &Vec<(String, u64)>) -> (r:
    bool)
    requires
        files.len() <= u64::MAX,
    ensures
        expected.file_tree_sha256@.len() == 0 ==> !r,
        expected.file_tree_sha256@.len() > 0 ==> content_match_outcome(
            *expected,
            signature_paths(files_view(files@)),
            r,
        ),
{
    if expected.file_tree_sha256.as_str().is_empty() {
        return false;
    }
    let ghost fv = files_view(files@);
    let mut normal: Vec<(String, u64)> = Vec::new();
    let mut i: usize = 0;
    while i < files.len()
        invariant
            i <= files.len(),
            fv == files_view(files@),
            files_view(normal@) == signature_paths(fv).take(i as int),
        decreases files.len() - i,
    {
        let item = (path_to_signature_string(files[i].0.as_str()), files[i].1);
        let ghost before = normal@;
        normal.push(item);
        proof {
            assert(files_view(normal@) =~= files_view(before).push((item.0@, item.1)));
            assert(signature_paths(fv).take(i + 1) =~= signature_paths(fv).take(i as int).push(
                (spec_signature_path(fv[i as int].0), fv[i as int].1),
            ));
        }
        i = i + 1;
    }
    proof {
        assert(signature_paths(fv).take(files.len() as int) =~= signature_paths(fv));
    }
    let sig = signature_of_files(&normal);
    expected.file_count == sig.file_count && expected.unpacked_size == sig.unpacked_size && str_eq(
        expected.file_tree_sha256.as_str(),
        sig.file_tree_sha256.as_str(),
    )
}

/// Some stable sort of `files` by path gives a signature, and `r` tells
/// whether the marker records exactly that signature.
pub open spec fn content_match_outcome(
    expected: ExtractedPackageMarker,
    files: Seq<(Seq<char>, u64)>,
    r: bool,
) -> bool {
    exists|order: Seq<usize>, sig: TarballContentSignature|
        #![trigger signature_matches(sig, permuted(files, order))]
        stable_order_by_text(order, paths_of(files)) && signature_matches(sig, permuted(files, order))
            && r == (expected.file_count == sig.file_count && expected.unpacked_size
            == sig.unpacked_size && expected.file_tree_sha256@ == sig.file_tree_sha256@)
}

pub open spec fn signature_paths(files: Seq<(Seq<char>, u64)>) -> Seq<(Seq<char>, u64)> {
    files.map_values(|f: (Seq<char>, u64)| (spec_signature_path(f.0), f.1))
}

} // verus!
