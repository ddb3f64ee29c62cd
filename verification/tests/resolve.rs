use core_web::adapter::{
    add_range_plan, exact_version_candidate, is_dist_tag_spec, pin_dist_tag_at, saved_latest_range,
    AddRange,
};
use core_web::native::npm_registry::{PackageMetadata, VersionInfo};
use core_web::provider::{
    check_pinned_version_at, eligible_versions_at, enqueue_selected, enqueue_without_metadata,
    newest_matching, parse_npm_time, peer_candidate, prefetch_sources, select_best_version, source_package_name,
    version_dependencies, AgePolicy,
};
use core_web::lockfile::{EcosystemTag, LockPackage, WebLockfile};
use core_web::supply_chain::enforce_publish_age;
use core_web::update::{preferred_registry_version, update_from_version, VersionFacts};
use core_web::types::PackageId;

fn meta(name: &str, tags: &[(&str, &str)], times: &[(&str, &str)]) -> PackageMetadata {
    PackageMetadata {
        name: name.to_string(),
        description: None,
        versions: Vec::new(),
        dist_tags: tags.iter().map(|(a, b)| (a.to_string(), b.to_string())).collect(),
        time: times.iter().map(|(a, b)| (a.to_string(), b.to_string())).collect(),
    }
}

fn info(version: &str) -> VersionInfo {
    VersionInfo {
        version: version.to_string(),
        dependencies: None,
        dev_dependencies: None,
        peer_dependencies: None,
        optional_dependencies: None,
        os: None,
        cpu: None,
        dist: None,
    }
}

const DAY: u64 = 86_400;

#[test]
fn npm_time_parses_to_unix_seconds() {
    assert_eq!(parse_npm_time("1970-01-01T00:00:00.000Z"), Some(0));
    assert_eq!(parse_npm_time("2000-03-01T00:00:00Z"), Some(951_868_800));
    assert_eq!(parse_npm_time("2024-02-29T12:34:56.789Z"), Some(1_709_210_096));
    assert_eq!(parse_npm_time("2024-13-01T00:00:00Z"), None);
    assert_eq!(parse_npm_time("2024-01-01"), None);
    assert_eq!(parse_npm_time("garbage"), None);
}

#[test]
fn dist_tags_are_words() {
    assert!(is_dist_tag_spec("latest"));
    assert!(is_dist_tag_spec(" next "));
    assert!(!is_dist_tag_spec("*"));
    assert!(!is_dist_tag_spec("^1.0.0"));
    assert!(!is_dist_tag_spec("beta2"));
    assert!(!is_dist_tag_spec(""));
}

#[test]
fn exact_version_candidates() {
    assert_eq!(exact_version_candidate(" =1.2.3 "), Some("1.2.3".to_string()));
    assert_eq!(exact_version_candidate("1.2.3"), Some("1.2.3".to_string()));
    assert_eq!(exact_version_candidate("^1.2.3"), None);
    assert_eq!(exact_version_candidate("1.0.0 || 2.0.0"), None);
    assert_eq!(exact_version_candidate("="), None);
}

#[test]
fn pinning_a_known_tag() {
    let m = meta("demo", &[("latest", "2.0.0"), ("next", "3.0.0-rc.1")], &[("2.0.0", "1970-01-02T00:00:00Z")]);
    assert_eq!(pin_dist_tag_at("demo", " latest ", &m, None, 10 * DAY).unwrap(), "2.0.0");
    let policy = Some(AgePolicy { cutoff_hours: 24, allow_missing_time: false });
    assert_eq!(pin_dist_tag_at("demo", "latest", &m, policy, 2 * DAY).unwrap(), "2.0.0");
    assert_eq!(
        pin_dist_tag_at("demo", "latest", &m, policy, DAY + 60).unwrap_err(),
        "minimum-release-age: demo@2.0.0 is younger than 24h — pin an older version explicitly or relax [security] min_release_age"
    );
    assert_eq!(
        pin_dist_tag_at("demo", "next", &m, policy, 2 * DAY).unwrap_err(),
        "minimum-release-age: demo@3.0.0-rc.1 has no registry timestamp — set [security] allow_missing_time for private registries"
    );
}

#[test]
fn unknown_tag_lists_ten_sorted_tags() {
    let tags: Vec<(String, String)> =
        ["k", "j", "i", "h", "g", "f", "e", "d", "c", "b", "a", "l"].iter().map(|t| (t.to_string(), "1.0.0".to_string())).collect();
    let tag_refs: Vec<(&str, &str)> = tags.iter().map(|(a, b)| (a.as_str(), b.as_str())).collect();
    let m = meta("demo", &tag_refs, &[]);
    assert_eq!(
        pin_dist_tag_at("demo", "canary", &m, None, 0).unwrap_err(),
        "unknown dist-tag 'canary' for 'demo' (known tags: a, b, c, d, e, f, g, h, i, j)"
    );
    let few = meta("demo", &[("next", "1"), ("latest", "2")], &[]);
    assert_eq!(
        pin_dist_tag_at("demo", "beta", &few, None, 0).unwrap_err(),
        "unknown dist-tag 'beta' for 'demo' (known tags: latest, next)"
    );
    let none = meta("demo", &[], &[]);
    assert_eq!(
        pin_dist_tag_at("demo", "beta", &none, None, 0).unwrap_err(),
        "unknown dist-tag 'beta' for 'demo' (known tags: )"
    );
}

#[test]
fn add_range_choices() {
    assert!(matches!(add_range_plan(None, false), AddRange::FetchLatest));
    assert!(matches!(add_range_plan(Some("latest"), true), AddRange::FetchLatest));
    assert!(matches!(add_range_plan(Some("*"), false), AddRange::FetchLatest));
    assert!(matches!(add_range_plan(Some(""), false), AddRange::FetchLatest));
    match add_range_plan(Some("^~^1.2.3"), true) {
        AddRange::Use { range } => assert_eq!(range, "^1.2.3"),
        _ => panic!(),
    }
    match add_range_plan(Some("^^~1.2.3"), true) {
        AddRange::Use { range } => assert_eq!(range, "1.2.3"),
        _ => panic!(),
    }
    match add_range_plan(Some("^1.2.3"), false) {
        AddRange::Use { range } => assert_eq!(range, "^1.2.3"),
        _ => panic!(),
    }
    assert_eq!(saved_latest_range("4.1.0", false), "^4.1.0");
    assert_eq!(saved_latest_range("4.1.0", true), "4.1.0");
}

#[test]
fn age_gate_on_candidates() {
    let m = meta("demo", &[], &[("1.0.0", "1970-01-01T00:00:00Z"), ("2.0.0", "1970-01-10T00:00:00Z")]);
    let cands = vec!["1.0.0".to_string(), "2.0.0".to_string(), "3.0.0".to_string()];
    let policy = Some(AgePolicy { cutoff_hours: 48, allow_missing_time: false });
    assert_eq!(eligible_versions_at("demo", &m, &cands, policy, 10 * DAY).unwrap(), vec!["1.0.0".to_string()]);
    let lenient = Some(AgePolicy { cutoff_hours: 48, allow_missing_time: true });
    assert_eq!(
        eligible_versions_at("demo", &m, &cands, lenient, 10 * DAY).unwrap(),
        vec!["1.0.0".to_string(), "3.0.0".to_string()]
    );
    assert_eq!(eligible_versions_at("demo", &m, &cands, None, 0).unwrap(), cands);
    assert!(check_pinned_version_at("demo", &m, "2.0.0", policy, 10 * DAY).is_err());
    assert!(check_pinned_version_at("demo", &m, "1.0.0", policy, 10 * DAY).is_ok());
}

#[test]
fn alias_sources_and_prefetch_dedupe() {
    let aliases = vec![("vite".to_string(), "@voidzero-dev/vite-plus-core".to_string())];
    assert_eq!(source_package_name(&aliases, "vite"), "@voidzero-dev/vite-plus-core");
    assert_eq!(source_package_name(&aliases, "react"), "react");

    let sources: Vec<String> = ["a", "b", "a", "c", "b", "d"].iter().map(|s| s.to_string()).collect();
    let cached = vec![false, false, false, true, false, false];
    assert_eq!(prefetch_sources(&sources, &cached), vec!["a", "b", "d"]);
}

#[test]
fn version_dependency_edges() {
    let mut v = info("1.0.0");
    v.dependencies = Some(vec![
        ("react".to_string(), "^18.0.0".to_string()),
        ("sw".to_string(), "npm:string-width@^4.2.0".to_string()),
    ]);
    v.optional_dependencies = Some(vec![("fsevents".to_string(), "^2.0.0".to_string())]);
    v.peer_dependencies = Some(vec![("react-dom".to_string(), "*".to_string())]);
    let deps = version_dependencies(&v);
    let seen: Vec<(&str, &str, bool, bool, Option<&str>)> = deps
        .iter()
        .map(|d| (d.package.as_str(), d.spec.as_str(), d.optional, d.peer, d.alias_target.as_deref()))
        .collect();
    assert_eq!(
        seen,
        vec![
            ("react", "^18.0.0", false, false, None),
            ("sw", "^4.2.0", false, false, Some("string-width")),
            ("fsevents", "^2.0.0", true, false, None),
            ("react-dom", "*", false, true, None),
        ]
    );
    assert!(version_dependencies(&info("2.0.0")).is_empty());
}

#[test]
fn best_version_prefers_stable() {
    // Versions: 1.0.0, 2.0.0-beta.1, 1.5.0 (ranks follow semver order).
    let matches = vec![true, true, true];
    let pre = vec![false, true, false];
    let ranks = vec![0u64, 2, 1];
    assert_eq!(select_best_version("^1", &matches, &pre, &ranks), Some(2));
    assert_eq!(select_best_version(">=2.0.0-0", &matches, &pre, &ranks), Some(1));
    assert_eq!(select_best_version("^2", &vec![false, true, false], &pre, &ranks), Some(1));
    assert_eq!(select_best_version("^3", &vec![false, false, false], &pre, &ranks), None);
}

#[test]
fn optional_edges() {
    assert_eq!(enqueue_without_metadata(false, None, "x", "linux", "x64"), Some(true));
    assert_eq!(enqueue_without_metadata(true, Some(false), "x", "linux", "x64"), Some(false));
    assert_eq!(enqueue_without_metadata(true, None, "@esbuild/linux-x64", "linux", "x64"), Some(true));
    assert_eq!(enqueue_without_metadata(true, None, "@esbuild/win32-x64", "linux", "x64"), Some(false));
    assert_eq!(enqueue_without_metadata(true, None, "fsevents", "linux", "x64"), None);

    let mut m = meta("fsevents", &[], &[]);
    let mut v = info("2.3.3");
    v.os = Some(vec!["darwin".to_string()]);
    m.versions = vec![("2.3.3".to_string(), v)];
    assert!(!enqueue_selected(&m, Some("2.3.3"), "linux", "x64"));
    assert!(enqueue_selected(&m, Some("2.3.3"), "darwin", "arm64"));
    assert!(!enqueue_selected(&m, Some("9.9.9"), "darwin", "arm64"));
    assert!(!enqueue_selected(&m, None, "darwin", "arm64"));
}

#[test]
fn publish_age_over_a_resolution() {
    let fresh = (chrono::Utc::now() - chrono::Duration::hours(1)).to_rfc3339();
    let old = (chrono::Utc::now() - chrono::Duration::hours(72)).to_rfc3339();
    let metas = vec![
        ("old".to_string(), meta("old", &[], &[("1.0.0", old.as_str())])),
        ("new".to_string(), meta("new", &[], &[("1.0.0", fresh.as_str())])),
    ];
    let id = |n: &str| PackageId { name: n.to_string(), version: "1.0.0".to_string() };
    assert!(enforce_publish_age(&vec![id("old"), id("unknown")], &metas, 86_400).is_ok());
    let err = enforce_publish_age(&vec![id("old"), id("new")], &metas, 86_400).unwrap_err();
    assert!(err.contains("'new@1.0.0'") && err.contains("quarantine"));
}

#[test]
fn edges_pick_the_newest_accepted_resolution() {
    // Resolutions 0.2.0, 0.3.0, 1.0.0 of one package (ranks in semver order).
    let ranks = vec![0u64, 1, 2];
    // `^0.2.0` accepts only 0.2.0: the newest accepted, not the newest.
    assert_eq!(newest_matching(&vec![true, false, false], &ranks), Some(0));
    assert_eq!(newest_matching(&vec![true, true, false], &ranks), Some(1));
    assert_eq!(newest_matching(&vec![false, false, false], &ranks), None);
    // A peer range accepting nothing falls back to the newest resolution.
    assert_eq!(peer_candidate(&vec![false, false, false], &ranks), Some(2));
    assert_eq!(peer_candidate(&vec![true, false, false], &ranks), Some(0));
    assert_eq!(peer_candidate(&vec![], &vec![]), None);
}

#[test]
fn test_preferred_registry_version_prefers_stable_over_prerelease() {
    let mut metadata = meta("demo", &[("latest", "4.5.0-canary.20260504T180558")], &[]);
    metadata.versions = vec![
        ("4.4.3".to_string(), info("4.4.3")),
        ("4.5.0-canary.20260504T180558".to_string(), info("4.5.0-canary.20260504T180558")),
    ];
    // The `latest` tag names a prerelease, so it is not taken as stable.
    let versions = vec![
        VersionFacts { text: "4.4.3".to_string(), prerelease: false, rank: 0 },
        VersionFacts { text: "4.5.0-canary.20260504T180558".to_string(), prerelease: true, rank: 1 },
    ];
    assert_eq!(preferred_registry_version(&metadata, None, &versions).as_deref(), Some("4.4.3"));
}

#[test]
fn preferred_version_fallbacks() {
    let tagged = meta("demo", &[("latest", "2.0.0")], &[]);
    let versions = vec![
        VersionFacts { text: "1.0.0".to_string(), prerelease: false, rank: 0 },
        VersionFacts { text: "3.0.0".to_string(), prerelease: false, rank: 2 },
    ];
    assert_eq!(preferred_registry_version(&tagged, Some("2.0.0"), &versions).as_deref(), Some("2.0.0"));
    assert_eq!(preferred_registry_version(&tagged, None, &versions).as_deref(), Some("3.0.0"));
    let pre_only = vec![VersionFacts { text: "1.0.0-rc.1".to_string(), prerelease: true, rank: 0 }];
    assert_eq!(preferred_registry_version(&tagged, None, &pre_only).as_deref(), Some("2.0.0"));
    let untagged = meta("demo", &[], &[]);
    assert_eq!(preferred_registry_version(&untagged, None, &pre_only).as_deref(), Some("1.0.0-rc.1"));
    assert_eq!(preferred_registry_version(&untagged, None, &vec![]), None);
}

#[test]
fn update_reports_the_locked_version() {
    let entry = |name: &str, version: &str| LockPackage {
        owner_core: None,
        name: name.to_string(),
        version: version.to_string(),
        resolved: String::new(),
        integrity: String::new(),
        dependencies: Vec::new(),
        ecosystem: EcosystemTag::Foreign,
        registry: None,
    };
    let lock = WebLockfile { version: "3".to_string(), packages: vec![entry("zod", "3.1.0"), entry("zod", "3.2.0")] };
    assert_eq!(update_from_version(Some(&lock), "zod", "^3.0.0"), "3.1.0");
    assert_eq!(update_from_version(Some(&lock), "react", "^18.0.0"), "^18.0.0");
    assert_eq!(update_from_version(None, "zod", "^3.0.0"), "^3.0.0");
}
