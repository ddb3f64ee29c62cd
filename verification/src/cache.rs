//! Shared web cache: where metadata, resolutions and extracted packages live,
//! and when cached entries may be reused.

use vstd::prelude::*;
use vstd::string::StringSliceAdditionalSpecFns;
use crate::install::integrity::{sha256, sha256_digest};
use crate::paths::{join, path_join};
use crate::text::{hex_encode, spec_hex, str_chars, string_from_chars, strings_view, vecs_view};
use crate::types::ResolvedPackage;
use crate::cache_metadata::CachedMetadataEnvelope;
use crate::cache_prune::shared_cache_prune_stamp_path;
use crate::native::npm_registry::PackageMetadata;
use crate::order::{sorted_distinct, strictly_sorted_texts};
use crate::text::str_to_string;

verus! {

/// Seconds since the unix epoch from the system clock (0 when the clock is
/// before the epoch).
/// Trusted: `SystemTime::now().duration_since(UNIX_EPOCH)`; nothing is
/// promised of the value, which depends on the clock.
#[verifier::external_body]
pub fn current_unix_secs() -> u64 {
    std::time::SystemTime::now().duration_since(std::time::UNIX_EPOCH).unwrap_or_default().as_secs()
}

/// Unicode `Alphabetic` or `Numeric` (`char::is_alphanumeric`).
pub uninterp spec fn unicode_alphanumeric(c: char) -> bool;

pub open spec fn ascii_alphanumeric(c: char) -> bool {
    ('a' <= c && c <= 'z') || ('A' <= c && c <= 'Z') || ('0' <= c && c <= '9')
}

/// `char::is_alphanumeric`; on ASCII it holds exactly for letters and digits.
#[verifier::external_body]
pub(crate) fn char_is_alphanumeric(c: char) -> (r: bool)
    ensures
        r == unicode_alphanumeric(c),
        (c as u32) < 128 ==> (r <==> ascii_alphanumeric(c)),
{
    c.is_alphanumeric()
}

/// Registry URL turned into a directory name: every non-alphanumeric
/// character becomes `_`.
pub open spec fn registry_key(url: Seq<char>) -> Seq<char> {
    url.map_values(|c: char| if unicode_alphanumeric(c) { c } else { '_' })
}

fn registry_key_of(url: &str) -> (r: String)
    ensures
        r@ == registry_key(url@),
{
    let chars = str_chars(url);
    let mut out: Vec<char> = Vec::new();
    let mut i: usize = 0;
    while i < chars.len()
        invariant
            i <= chars.len(),
            chars@ == url@,
            out@ == registry_key(chars@.take(i as int)),
        decreases chars.len() - i,
    {
        let c = chars[i];
        let m = if char_is_alphanumeric(c) {
            c
        } else {
            '_'
        };
        out.push(m);
        proof {
            assert(registry_key(chars@.take(i + 1)) == registry_key(chars@.take(i as int)).push(m));
        }
        i = i + 1;
    }
    proof {
        assert(chars@.take(chars@.len() as int) == chars@);
    }
    string_from_chars(&out)
}

/// Integrity string made safe as a file name: `/`→`_`, `+`→`-`, `=` dropped.
pub open spec fn fs_safe_integrity(s: Seq<char>) -> Seq<char>
    decreases s.len(),
{
    if s.len() == 0 {
        Seq::empty()
    } else {
        let r = fs_safe_integrity(s.drop_last());
        let c = s.last();
        if c == '=' {
            r
        } else {
            r.push(
                if c == '/' {
                    '_'
                } else if c == '+' {
                    '-'
                } else {
                    c
                },
            )
        }
    }
}

/// Package name made safe as a directory name: `/`→`__`, `@` dropped.
pub open spec fn safe_package_dir(s: Seq<char>) -> Seq<char>
    decreases s.len(),
{
    if s.len() == 0 {
        Seq::empty()
    } else {
        let r = safe_package_dir(s.drop_last());
        let c = s.last();
        if c == '@' {
            r
        } else if c == '/' {
            r + seq!['_', '_']
        } else {
            r.push(c)
        }
    }
}

fn fs_safe_of(s: &str) -> (r: String)
    ensures
        r@ == fs_safe_integrity(s@),
{
    let chars = str_chars(s);
    let mut out: Vec<char> = Vec::new();
    let mut i: usize = 0;
    while i < chars.len()
        invariant
            i <= chars.len(),
            out@ == fs_safe_integrity(chars@.take(i as int)),
        decreases chars.len() - i,
    {
        let c = chars[i];
        proof {
            assert(chars@.take(i + 1).drop_last() == chars@.take(i as int));
            assert(chars@.take(i + 1).last() == c);
        }
        if c != '=' {
            out.push(
                if c == '/' {
                    '_'
                } else if c == '+' {
                    '-'
                } else {
                    c
                },
            );
        }
        i = i + 1;
    }
    proof {
        assert(chars@.take(chars@.len() as int) == chars@);
    }
    string_from_chars(&out)
}

fn safe_package_dir_of(s: &str) -> (r: String)
    ensures
        r@ == safe_package_dir(s@),
{
    let chars = str_chars(s);
    let mut out: Vec<char> = Vec::new();
    let mut i: usize = 0;
    while i < chars.len()
        invariant
            i <= chars.len(),
            out@ == safe_package_dir(chars@.take(i as int)),
        decreases chars.len() - i,
    {
        let c = chars[i];
        proof {
            assert(chars@.take(i + 1).drop_last() == chars@.take(i as int));
            assert(chars@.take(i + 1).last() == c);
        }
        if c == '/' {
            let ghost before = out@;
            out.push('_');
            out.push('_');
            proof {
                assert(out@ == before + seq!['_', '_']);
            }
        } else if c != '@' {
            out.push(c);
        }
        i = i + 1;
    }
    proof {
        assert(chars@.take(chars@.len() as int) == chars@);
    }
    string_from_chars(&out)
}

/// Key of an extracted package in the cache: the version, plus the
/// file-name-safe integrity when known.
pub open spec fn spec_extracted_package_cache_key(version: Seq<char>, integrity: Seq<char>) -> Seq<char> {
    if integrity.len() == 0 {
        version
    } else {
        version + "-"@ + fs_safe_integrity(integrity)
    }
}

pub fn extracted_package_cache_key(pkg: &ResolvedPackage) -> (r: String)
    ensures
        r@ == spec_extracted_package_cache_key(pkg.id.version@, pkg.integrity@),
{
    if pkg.integrity.as_str().is_empty() {
        return pkg.id.version.clone();
    }
    let mut s = pkg.id.version.clone();
    crate::text::string_append(&mut s, "-");
    let f = fs_safe_of(pkg.integrity.as_str());
    crate::text::string_append(&mut s, f.as_str());
    s
}

/// `<root>/packages/<safe name>/<cache key>/package`.
pub open spec fn spec_shared_extracted_package_root(root: Seq<char>, pkg: ResolvedPackage) -> Seq<char> {
    path_join(
        path_join(
            path_join(path_join(root, "packages"@), safe_package_dir(pkg.id.name@)),
            spec_extracted_package_cache_key(pkg.id.version@, pkg.integrity@),
        ),
        "package"@,
    )
}

pub fn shared_extracted_package_root(root: &str, pkg: &ResolvedPackage) -> (r: String)
    ensures
        r@ == spec_shared_extracted_package_root(root@, *pkg),
{
    let safe = safe_package_dir_of(pkg.id.name.as_str());
    let key = extracted_package_cache_key(pkg);
    let a = join(root, "packages");
    let b = join(a.as_str(), safe.as_str());
    let c = join(b.as_str(), key.as_str());
    join(c.as_str(), "package")
}

/// A cache directory shared between projects.
#[derive(Debug, Clone)]
pub struct SharedWebCache {
    pub root: String,
}

/// `e` is the envelope that [`SharedWebCache::write_metadata_record`] makes
/// for these values.
pub open spec fn envelope_written_at(
    e: CachedMetadataEnvelope,
    metadata: PackageMetadata,
    etag: Option<String>,
    fetched_at: u64,
    stale_retry_after: Option<u64>,
) -> bool {
    &&& e.metadata == metadata
    &&& e.etag == etag
    &&& e.fetched_at == fetched_at
    &&& e.stale_retry_after == stale_retry_after
}

impl SharedWebCache {
    /// `<root>/metadata/<registry key>/<package>/metadata.json`.
    pub fn metadata_path(&self, package: &str, registry_url: &str) -> (r: String)
        ensures
            r@ == path_join(
                path_join(
                    path_join(path_join(self.root@, "metadata"@), registry_key(registry_url@)),
                    package@,
                ),
                "metadata.json"@,
            ),
    {
        let key = registry_key_of(registry_url);
        let a = join(self.root.as_str(), "metadata");
        let b = join(a.as_str(), key.as_str());
        let c = join(b.as_str(), package);
        join(c.as_str(), "metadata.json")
    }

    /// `<root>/resolutions/<key>.json`.
    pub fn resolution_path(&self, key: &str) -> (r: String)
        ensures
            r@ == path_join(path_join(self.root@, "resolutions"@), key@ + ".json"@),
    {
        let mut name = crate::text::str_to_string(key);
        crate::text::string_append(&mut name, ".json");
        let a = join(self.root.as_str(), "resolutions");
        join(a.as_str(), name.as_str())
    }

    /// `<root>/refs/projects/<hex sha256 of the project path>.json`, where
    /// `project_ref` is the project's canonical path string.
    pub fn project_ref_path(&self, project_ref: &str) -> (r: String)
        ensures
            r@ == path_join(
                path_join(path_join(self.root@, "refs"@), "projects"@),
                spec_hex(sha256_digest(project_ref.spec_bytes())) + ".json"@,
            ),
    {
        let digest = sha256(project_ref.as_bytes());
        let mut name = hex_encode(digest.as_slice());
        crate::text::string_append(&mut name, ".json");
        let a = join(self.root.as_str(), "refs");
        let b = join(a.as_str(), "projects");
        join(b.as_str(), name.as_str())
    }

    pub fn extracted_package_root(&self, pkg: &ResolvedPackage) -> (r: String)
        ensures
            r@ == spec_shared_extracted_package_root(self.root@, *pkg),
    {
        shared_extracted_package_root(self.root.as_str(), pkg)
    }
}


/// One step of a pruning pass over the shared cache, in the order the pass
/// runs them.
#[derive(Debug, Clone, PartialEq, Eq)]
pub enum PruneTask {
    /// Remove old files under the directory (then empty directories).
    OldFiles { dir: String },
    /// Remove old extracted package directories, sparing pinned ones.
    OldPackageDirs { dir: String },
    /// Remove old per-registry metadata directories.
    OldMetadataDirs { dir: String },
    /// Remove oldest entries until the cache fits its byte quota.
    Quota { root: String },
    /// Record that the pass ran.
    WriteStamp { path: String },
}

pub open spec fn prune_task_view(t: PruneTask) -> (int, Seq<char>) {
    match t {
        PruneTask::OldFiles { dir } => (0, dir@),
        PruneTask::OldPackageDirs { dir } => (1, dir@),
        PruneTask::OldMetadataDirs { dir } => (2, dir@),
        PruneTask::Quota { root } => (3, root@),
        PruneTask::WriteStamp { path } => (4, path@),
    }
}

/// The tasks of a full pruning pass over `root`.
pub open spec fn spec_prune_pass(root: Seq<char>) -> Seq<(int, Seq<char>)> {
    seq![
        (0, path_join(root, "cache"@)),
        (0, path_join(root, "resolutions"@)),
        (1, path_join(root, "packages"@)),
        (2, path_join(root, "metadata"@)),
        (3, root),
        (4, path_join(root, ".gc-stamp"@)),
    ]
}

/// Roots of shared caches already pruned by this process.
pub struct PrunedRoots {
    pub roots: Vec<String>,
}

impl PrunedRoots {
    pub open spec fn view(&self) -> Set<Seq<char>> {
        strings_view(self.roots@).to_set()
    }

    pub fn new() -> (r: PrunedRoots)
        ensures
            r.view() == Set::<Seq<char>>::empty(),
    {
        let r = PrunedRoots { roots: Vec::new() };
        proof {
            assert(r.view() =~= Set::<Seq<char>>::empty());
        }
        r
    }

    /// Records `root`; true when it was not recorded before.
    pub fn insert(&mut self, root: &str) -> (first: bool)
        ensures
            first == !old(self).view().contains(root@),
            final(self).view() == old(self).view().insert(root@),
    {
        let ghost before = strings_view(self.roots@);
        let mut i: usize = 0;
        while i < self.roots.len()
            invariant
                i <= self.roots.len(),
                before == strings_view(self.roots@),
                forall|k: int| 0 <= k < i ==> #[trigger] before[k] != root@,
            decreases self.roots.len() - i,
        {
            if crate::text::chars_eq(&str_chars(self.roots[i].as_str()), &str_chars(root)) {
                proof {
                    assert(before[i as int] == root@);
                    assert(self.view().contains(root@));
                    assert(self.view().insert(root@) =~= self.view());
                }
                return false;
            }
            i = i + 1;
        }
        self.roots.push(str_to_string(root));
        proof {
            assert(strings_view(self.roots@) =~= before.push(root@));
            before.lemma_push_to_set_commute(root@);
            if before.to_set().contains(root@) {
                let k = choose|k: int| 0 <= k < before.len() && before[k] == root@;
                assert(before[k] != root@);
            }
        }
        true
    }
}

/// What a shared cache records about a project that uses it: the package
/// roots it links to, which pruning must spare.
#[derive(Debug, Clone)]
pub struct SharedCacheProjectRef {
    pub schema_version: u32,
    pub project_root: String,
    pub updated_at: u64,
    pub package_roots: Vec<String>,
}

/// The package roots a project reference pins, or none when the reference
/// is of another schema or its project no longer exists.
pub fn pinned_roots_of_ref(reference: &SharedCacheProjectRef, project_exists: bool) -> (r: Vec<String>)
    ensures
        (reference.schema_version != 1 || !project_exists) ==> r.len() == 0,
        (reference.schema_version == 1 && project_exists) ==> strings_view(r@)
            == strings_view(reference.package_roots@),
{
    let mut out: Vec<String> = Vec::new();
    if reference.schema_version != 1 || !project_exists {
        return out;
    }
    let mut i: usize = 0;
    while i < reference.package_roots.len()
        invariant
            i <= reference.package_roots.len(),
            strings_view(out@) == strings_view(reference.package_roots@).take(
                i as int,
            ),
        decreases reference.package_roots.len() - i,
    {
        let item = str_to_string(reference.package_roots[i].as_str());
        let ghost before = out@;
        out.push(item);
        proof {
            assert(out@ == before.push(item));
            assert(item@ == reference.package_roots@[i as int]@);
            assert(strings_view(out@) =~= strings_view(before).push(item@));
            assert(strings_view(reference.package_roots@).take(i + 1) =~= strings_view(
                reference.package_roots@,
            ).take(i as int).push(reference.package_roots@[i as int]@));
            assert(strings_view(out@) =~= strings_view(reference.package_roots@).take(i + 1));
        }
        i = i + 1;
    }
    proof {
        assert(strings_view(reference.package_roots@).take(
            reference.package_roots.len() as int,
        ) =~= strings_view(reference.package_roots@));
    }
    out
}

impl SharedWebCache {
    /// The pruning pass: when it is due, prune old files, package
    /// directories and metadata, then bring the cache under its quota, then
    /// write the stamp; otherwise nothing.
    pub fn maybe_prune(&self, due: bool) -> (r: Vec<PruneTask>)
        ensures
            !due ==> r.len() == 0,
            due ==> r@.map_values(|t: PruneTask| prune_task_view(t)) == spec_prune_pass(self.root@),
    {
        let mut tasks: Vec<PruneTask> = Vec::new();
        if !due {
            return tasks;
        }
        let root = self.root.as_str();
        tasks.push(PruneTask::OldFiles { dir: join(root, "cache") });
        tasks.push(PruneTask::OldFiles { dir: join(root, "resolutions") });
        tasks.push(PruneTask::OldPackageDirs { dir: join(root, "packages") });
        tasks.push(PruneTask::OldMetadataDirs { dir: join(root, "metadata") });
        tasks.push(PruneTask::Quota { root: str_to_string(root) });
        tasks.push(PruneTask::WriteStamp { path: shared_cache_prune_stamp_path(root) });
        proof {
            assert(tasks@.map_values(|t: PruneTask| prune_task_view(t)) =~= spec_prune_pass(self.root@));
        }
        tasks
    }

    /// [`Self::maybe_prune`] at most once per root and process: `pruned`
    /// holds the roots already visited.
    pub fn maybe_prune_once_per_process(&self, pruned: &mut PrunedRoots, due: bool) -> (r: Vec<PruneTask>)
        ensures
            final(pruned).view() == old(pruned).view().insert(self.root@),
            old(pruned).view().contains(self.root@) ==> r.len() == 0,
            !old(pruned).view().contains(self.root@) ==> (!due ==> r.len() == 0) && (due ==> r@.map_values(
                |t: PruneTask| prune_task_view(t),
            ) == spec_prune_pass(self.root@)),
    {
        if !pruned.insert(self.root.as_str()) {
            return Vec::new();
        }
        self.maybe_prune(due)
    }

    /// The metadata document to store for `package` from `registry_url`,
    /// fetched now: its path and its envelope, stamped with the clock's
    /// reading (whatever it is) and no retry time.
    pub fn write_metadata(
        &self,
        package: &str,
        metadata: PackageMetadata,
        etag: Option<String>,
        registry_url: &str,
    ) -> (r: (String, CachedMetadataEnvelope))
        ensures
            r.0@ == path_join(
                path_join(
                    path_join(path_join(self.root@, "metadata"@), registry_key(registry_url@)),
                    package@,
                ),
                "metadata.json"@,
            ),
            exists|now: u64| #[trigger] envelope_written_at(r.1, metadata, etag, now, None),
    {
        let now = current_unix_secs();
        let r = self.write_metadata_record(package, metadata, etag, now, None, registry_url);
        proof {
            assert(envelope_written_at(r.1, metadata, etag, now, None));
        }
        r
    }

    /// As [`Self::write_metadata`], with the bookkeeping given.
    pub fn write_metadata_record(
        &self,
        package: &str,
        metadata: PackageMetadata,
        etag: Option<String>,
        fetched_at: u64,
        stale_retry_after: Option<u64>,
        registry_url: &str,
    ) -> (r: (String, CachedMetadataEnvelope))
        ensures
            r.0@ == path_join(
                path_join(
                    path_join(path_join(self.root@, "metadata"@), registry_key(registry_url@)),
                    package@,
                ),
                "metadata.json"@,
            ),
            r.1.metadata == metadata,
            r.1.etag == etag,
            r.1.fetched_at == fetched_at,
            r.1.stale_retry_after == stale_retry_after,
    {
        let path = self.metadata_path(package, registry_url);
        (path, CachedMetadataEnvelope { fetched_at, etag, stale_retry_after, metadata })
    }

    /// The reference that pins a project's package roots: its path, and the
    /// reference itself with the roots sorted and without repeats.
    /// `project_ref` and `package_roots` are canonical path strings.
    pub fn write_project_ref(&self, project_ref: &str, package_roots: &Vec<Vec<char>>) -> (r: (
        String,
        SharedCacheProjectRef,
    ))
        ensures
            r.0@ == path_join(
                path_join(path_join(self.root@, "refs"@), "projects"@),
                spec_hex(sha256_digest(project_ref.spec_bytes())) + ".json"@,
            ),
            r.1.schema_version == 1,
            r.1.project_root@ == project_ref@,
            strictly_sorted_texts(strings_view(r.1.package_roots@)),
            strings_view(r.1.package_roots@).to_set() == vecs_view(package_roots@).to_set(),
    {
        let path = self.project_ref_path(project_ref);
        let sorted = sorted_distinct(package_roots);
        let mut roots: Vec<String> = Vec::new();
        let mut i: usize = 0;
        while i < sorted.len()
            invariant
                i <= sorted.len(),
                strings_view(roots@) == vecs_view(sorted@).take(i as int),
            decreases sorted.len() - i,
        {
            let item = string_from_chars(&sorted[i]);
            let ghost before = roots@;
            roots.push(item);
            proof {
                assert(roots@ == before.push(item));
                assert(item@ == sorted@[i as int]@);
                assert(strings_view(roots@) =~= strings_view(before).push(item@));
                assert(vecs_view(sorted@).take(i + 1) =~= vecs_view(sorted@).take(i as int).push(
                    sorted@[i as int]@,
                ));
                assert(strings_view(roots@) =~= vecs_view(sorted@).take(
                    i + 1,
                ));
            }
            i = i + 1;
        }
        proof {
            assert(vecs_view(sorted@).take(sorted.len() as int) =~= vecs_view(sorted@));
        }
        let updated_at = current_unix_secs();
        let reference = SharedCacheProjectRef {
            schema_version: 1,
            project_root: str_to_string(project_ref),
            updated_at,
            package_roots: roots,
        };
        (path, reference)
    }
}


/// A package name as one directory name: `/` becomes `__`, `@` is dropped.
pub fn sanitize_pkg_name(name: &str) -> (r: String)
    ensures
        r@ == safe_package_dir(name@),
{
    safe_package_dir_of(name)
}

} // verus!
