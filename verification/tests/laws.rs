use core_web::cache_daemon::MemoryCacheDaemon;
use core_web::cache_metadata::{
    metadata_after_fetch, metadata_after_revalidate, metadata_first_step, CachedMetadataRecord,
    FetchOutcome, MetadataStep, RevalidateOutcome,
};
use core_web::install::integrity::{compute_tarball_integrity, verify_tarball_integrity};
use core_web::install::recovery::{leftover_kind, newest_backup, LeftoverKind};
use core_web::install::package_marker::{path_to_signature_string, sanitize_tarball_signature_path};
use core_web::lockfile::{
    find_web_lock_entry, next_web_lock_packages, replace_web_lock_packages, scope_web_lock_packages,
    web_lockfile_matches_graph, EcosystemTag, LockPackage, WebLockfile,
};
use core_web::native::npm_registry::PackageMetadata;
use core_web::profile::PipelineProfile;
use core_web::types::{PackageId, ResolvedGraph, ResolvedPackage};

fn id(name: &str, version: &str) -> PackageId {
    PackageId { name: name.to_string(), version: version.to_string() }
}

fn pkg(name: &str, version: &str, integrity: &str, deps: Vec<PackageId>) -> ResolvedPackage {
    ResolvedPackage {
        id: id(name, version),
        integrity: integrity.to_string(),
        tarball_url: format!("https://registry.npmjs.org/{name}/-/{name}-{version}.tgz"),
        deps,
        peer_deps: Vec::new(),
        direct: true,
        dev: false,
    }
}

fn lock_entry(owner: Option<&str>, name: &str, eco: EcosystemTag) -> LockPackage {
    LockPackage {
        owner_core: owner.map(|o| o.to_string()),
        name: name.to_string(),
        version: "1.0.0".to_string(),
        resolved: String::new(),
        integrity: String::new(),
        dependencies: Vec::new(),
        ecosystem: eco,
        registry: None,
    }
}

fn empty_metadata(name: &str) -> PackageMetadata {
    PackageMetadata {
        name: name.to_string(),
        description: None,
        versions: Vec::new(),
        dist_tags: Vec::new(),
        time: Vec::new(),
    }
}

#[test]
fn written_lock_reads_back_as_the_graph() {
    let graph = ResolvedGraph {
        packages: vec![
            pkg("react", "18.2.0", "sha512-abc", vec![id("loose-envify", "1.4.0")]),
            pkg("loose-envify", "1.4.0", "", vec![]),
        ],
    };
    let mut lock = WebLockfile {
        version: "2".to_string(),
        packages: vec![
            lock_entry(Some("other"), "sibling", EcosystemTag::Web),
            lock_entry(None, "legacy", EcosystemTag::Other),
            lock_entry(Some("web"), "stale", EcosystemTag::Web),
            lock_entry(None, "cargo-thing", EcosystemTag::Foreign),
        ],
    };
    let cached = vec![None, Some(b"tarball bytes".to_vec())];
    let next = next_web_lock_packages(&graph, "web", "https://registry.npmjs.org", &cached);
    assert_eq!(next[1].integrity, compute_tarball_integrity(b"tarball bytes"));
    assert_eq!(next[0].dependencies, vec!["loose-envify@1.4.0".to_string()]);
    assert_eq!(next[0].registry.as_deref(), Some("npm://https://registry.npmjs.org"));

    replace_web_lock_packages(&mut lock, "web", next);
    assert_eq!(lock.version, "3");
    let names: Vec<&str> = lock.packages.iter().map(|p| p.name.as_str()).collect();
    assert_eq!(names, vec!["sibling", "cargo-thing", "react", "loose-envify"]);

    let mut scoped = lock.clone();
    scope_web_lock_packages(&mut scoped, "web");
    let scoped_names: Vec<&str> = scoped.packages.iter().map(|p| p.name.as_str()).collect();
    assert_eq!(scoped_names, vec!["cargo-thing", "react", "loose-envify"]);
    assert!(web_lockfile_matches_graph(&scoped, &graph));

    let other = ResolvedGraph { packages: vec![pkg("react", "18.3.0", "", vec![])] };
    assert!(!web_lockfile_matches_graph(&scoped, &other));
}

#[test]
fn scoping_hides_sibling_cores_and_is_idempotent() {
    let mut lock = WebLockfile {
        version: "3".to_string(),
        packages: vec![
            lock_entry(Some("other"), "sibling", EcosystemTag::Web),
            lock_entry(Some("mine"), "own", EcosystemTag::Web),
            lock_entry(None, "unowned", EcosystemTag::Web),
            lock_entry(None, "untagged", EcosystemTag::Other),
        ],
    };
    scope_web_lock_packages(&mut lock, "mine");
    let names: Vec<&str> = lock.packages.iter().map(|p| p.name.as_str()).collect();
    assert_eq!(names, vec!["own", "untagged"]);
    let again = lock.clone();
    scope_web_lock_packages(&mut lock, "mine");
    assert_eq!(lock.packages.len(), again.packages.len());
}

fn stale_record(fetched_at: u64, etag: Option<&str>, retry: Option<u64>) -> CachedMetadataRecord {
    CachedMetadataRecord {
        fetched_at,
        etag: etag.map(|e| e.to_string()),
        stale_retry_after: retry,
        metadata: empty_metadata("react"),
    }
}

#[test]
fn failed_refresh_defers_the_next_retry() {
    let now = 10_000u64;
    let cached = stale_record(now - 1_000, None, None);
    let (served, write) = metadata_after_fetch(
        "react",
        Some(cached),
        FetchOutcome::Failed { message: "offline".to_string() },
        now,
        86_400,
        300,
    );
    assert_eq!(served.unwrap().name, "react");
    let write = write.unwrap();
    assert_eq!(write.fetched_at, now - 1_000);
    assert_eq!(write.stale_retry_after, Some(now + 300));

    let next = stale_record(write.fetched_at, None, write.stale_retry_after);
    for later in [now, now + 1, now + 299] {
        assert_eq!(metadata_first_step(Some(&next), later, 60, 86_400), MetadataStep::ServeCached);
    }
    assert_eq!(metadata_first_step(Some(&next), now + 300, 60, 86_400), MetadataStep::Fetch);
}

#[test]
fn deferred_retry_does_not_bypass_max_stale() {
    let record = stale_record(1_000, Some("\"e1\""), Some(1_000_000));
    let step = metadata_first_step(Some(&record), 100_000, 60, 3_600);
    assert_eq!(step, MetadataStep::Revalidate { etag: "\"e1\"".to_string() });
    let record = stale_record(1_000, None, Some(1_000_000));
    assert_eq!(metadata_first_step(Some(&record), 100_000, 60, 3_600), MetadataStep::Fetch);
}

#[test]
fn too_old_metadata_is_not_reused_when_the_network_fails() {
    let cached = stale_record(1_000, Some("e"), None);
    let (served, write) = metadata_after_revalidate(
        "react",
        cached,
        "e".to_string(),
        RevalidateOutcome::Failed,
        100_000,
        3_600,
        300,
    );
    assert_eq!(
        served.unwrap_err(),
        "npm metadata refresh failed for 'react' and cached metadata is too old to reuse"
    );
    assert!(write.is_none());

    let (served, write) = metadata_after_fetch(
        "react",
        None,
        FetchOutcome::Failed { message: "boom".to_string() },
        100_000,
        3_600,
        300,
    );
    assert_eq!(served.unwrap_err(), "failed to fetch metadata for 'react': boom");
    assert!(write.is_none());
}

#[test]
fn fetched_record_is_served_fresh() {
    let (served, write) = metadata_after_fetch(
        "react",
        None,
        FetchOutcome::Fetched { metadata: empty_metadata("react"), etag: Some("e2".to_string()) },
        5_000,
        3_600,
        300,
    );
    assert!(served.is_ok());
    let write = write.unwrap();
    assert_eq!((write.fetched_at, write.etag.as_deref(), write.stale_retry_after), (5_000, Some("e2"), None));
    let record = stale_record(write.fetched_at, write.etag.as_deref(), write.stale_retry_after);
    assert_eq!(metadata_first_step(Some(&record), 5_000, 0, 0), MetadataStep::ServeCached);
    assert_eq!(metadata_first_step(None, 5_000, 60, 60), MetadataStep::Fetch);
}

#[test]
fn revalidation_outcomes() {
    let cached = stale_record(1_000, Some("e"), Some(7));
    let (served, write) = metadata_after_revalidate(
        "react",
        cached.clone(),
        "e".to_string(),
        RevalidateOutcome::NotModified,
        2_000,
        3_600,
        300,
    );
    assert!(served.is_ok());
    let w = write.unwrap();
    assert_eq!((w.fetched_at, w.etag.as_deref(), w.stale_retry_after), (2_000, Some("e"), None));

    let (served, write) = metadata_after_revalidate(
        "react",
        cached,
        "e".to_string(),
        RevalidateOutcome::Modified { metadata: empty_metadata("react2"), etag: "f".to_string() },
        2_000,
        3_600,
        300,
    );
    assert_eq!(served.unwrap().name, "react2");
    assert_eq!(write.unwrap().etag.as_deref(), Some("f"));
}

#[test]
fn profile_keeps_the_five_slowest_downloads() {
    let mut p = PipelineProfile::from_setting(Some("1"));
    let times = [30u64, 10, 70, 50, 70, 20, 90];
    for (i, t) in times.iter().enumerate() {
        p.record_download(&id(&format!("p{i}"), "1.0.0"), 100, *t, 1, 2);
    }
    let kept: Vec<u64> = p.slowest_downloads.iter().map(|e| e.0).collect();
    assert_eq!(kept, vec![90, 70, 70, 50, 30]);
    assert!(p.slowest_downloads[1].1 .0.starts_with("p2@1.0.0"));
    assert_eq!(p.slowest_downloads[1].1 .0, "p2@1.0.0 queue_wait=1ms io=2ms");
    assert_eq!(p.package_count, 7);
    assert_eq!(p.tarball_bytes, 700);
    assert_eq!(p.download_ms_max, 90);
    let lines = p.flush();
    assert_eq!(lines.len(), 6);

    let mut off = PipelineProfile::from_setting(None);
    off.record_download(&id("a", "1"), 1, 1, 1, 1);
    assert_eq!(off.package_count, 0);
    assert!(off.flush().is_empty());
}

#[test]
fn memory_cache_reads_back_the_last_write() {
    let mut d = MemoryCacheDaemon::new();
    assert_eq!(d.get(&id("react", "18.2.0")), None);
    d.insert(&id("react", "18.2.0"), b"one");
    d.insert(&id("zod", "3.0.0"), b"two");
    d.insert(&id("react", "18.2.0"), b"three");
    assert_eq!(d.get(&id("react", "18.2.0")), Some(b"three".to_vec()));
    assert_eq!(d.get(&id("zod", "3.0.0")), Some(b"two".to_vec()));
    assert_eq!(d.get(&id("react", "18.3.0")), None);
}

#[test]
fn computed_integrity_verifies() {
    let bytes = b"some tarball";
    let integrity = compute_tarball_integrity(bytes);
    assert!(integrity.starts_with("sha512-"));
    let p = pkg("a", "1.0.0", &integrity, vec![]);
    assert!(verify_tarball_integrity(&p, bytes, true).is_ok());
    assert!(verify_tarball_integrity(&p, b"other bytes", true).is_err());
}

#[test]
fn signature_paths_keep_only_named_segments() {
    assert_eq!(path_to_signature_string("./package//lib/./index.js"), "package/lib/index.js");
    assert_eq!(sanitize_tarball_signature_path("package/lib/a.js").unwrap(), "package/lib/a.js");
    assert!(sanitize_tarball_signature_path("package/../../etc/passwd").is_err());
    assert!(sanitize_tarball_signature_path("/etc/passwd").is_err());
    assert!(sanitize_tarball_signature_path("./").is_err());
}

#[test]
fn lock_entry_lookup_takes_the_first_web_entry() {
    let lock = WebLockfile {
        version: "3".to_string(),
        packages: vec![
            lock_entry(None, "react", EcosystemTag::Foreign),
            lock_entry(None, "react", EcosystemTag::Other),
            lock_entry(Some("web"), "react", EcosystemTag::Web),
            lock_entry(Some("web"), "react", EcosystemTag::Web),
        ],
    };
    assert_eq!(find_web_lock_entry(&lock, "react"), Some(2));
    assert_eq!(find_web_lock_entry(&lock, "zod"), None);
    let legacy = WebLockfile { version: "2".to_string(), packages: lock.packages.clone() };
    assert_eq!(find_web_lock_entry(&legacy, "react"), Some(1));
}

#[test]
fn recovery_touches_only_own_real_directories() {
    assert_eq!(leftover_kind(".mgc-snap-123", true), LeftoverKind::Snapshot);
    assert_eq!(leftover_kind(".mgc-snap-123", false), LeftoverKind::Other);
    assert_eq!(leftover_kind(".mgc-stage-9", true), LeftoverKind::Staging);
    assert_eq!(leftover_kind("install-stage-9", true), LeftoverKind::Staging);
    assert_eq!(leftover_kind(".mgc-prev-1-2-3", true), LeftoverKind::Backup);
    assert_eq!(leftover_kind("node_modules", true), LeftoverKind::Other);
    assert_eq!(leftover_kind("src", true), LeftoverKind::Other);
    assert_eq!(newest_backup(&vec![]), None);
    assert_eq!(newest_backup(&vec![5, 9, 3]), Some(1));
    assert_eq!(newest_backup(&vec![9, 9]), Some(1));
}
