use core_web::provider::parse_npm_time;
use core_web::cache_prune::{cas_file_prunable, quota_prunable_package_dir};
use core_web::install::recovery::{backup_step, read_only_refusal_message, rollback_error, BackupStep};
use core_web::install::materialize::{default_hardlink_threads, hardlink_thread_count, strict_tree_link_mode, StrictTreeLinkMode};
use core_web::lockfile::lock_owner_core;
use core_web::install::bin::bin_target_within_package;
use core_web::install::materialize::graph_without_packages;
use core_web::native::npm_registry::{retry_step, RetryStep};
use core_web::supply_chain::{enforce_no_downgrade, DirectDependency, RankedResolution};
use core_web::types::{PackageId, ResolvedGraph, ResolvedPackage};

fn id(name: &str, version: &str) -> PackageId {
    PackageId { name: name.to_string(), version: version.to_string() }
}

fn ranked(name: &str, version: &str, rank: u64) -> RankedResolution {
    RankedResolution { id: id(name, version), rank }
}

fn dep(name: &str, range: &str, baseline: Option<(&str, u64)>, matches: Vec<bool>) -> DirectDependency {
    DirectDependency {
        name: name.to_string(),
        range: range.to_string(),
        baseline: baseline.map(|(v, r)| (v.to_string(), r)),
        matches,
    }
}

#[test]
fn downgrade_guard_passes_an_upgrade() {
    let res = vec![ranked("react", "18.3.1", 180301), ranked("lodash", "4.17.21", 41721)];
    let deps = vec![dep("react", "^18.0.0", Some(("18.2.0", 180200)), vec![true, false])];
    assert!(enforce_no_downgrade(&deps, &res).is_ok());
}

#[test]
fn downgrade_guard_blocks_a_lower_top_level() {
    let res = vec![ranked("react", "18.1.0", 180100)];
    let deps = vec![dep("react", "^18.0.0", Some(("18.2.0", 180200)), vec![true])];
    let err = enforce_no_downgrade(&deps, &res).unwrap_err();
    assert_eq!(
        err,
        "\u{1F6A8} SECURITY: Downgrade blocked for 'react' \u{2014} previous top-level 18.2.0, new top-level selection 18.1.0.\n   Use MAGICORE_ALLOW_UNTRUSTED=1 to override."
    );
}

#[test]
fn downgrade_guard_compares_only_the_highest_in_range_selection() {
    // A lower nested line next to a newer top-level line is no regression.
    let res = vec![ranked("vue-router", "3.6.5", 30605), ranked("vue-router", "4.2.0", 40200)];
    let deps = vec![dep("vue-router", "^4.0.0", Some(("4.1.0", 40100)), vec![false, true])];
    assert!(enforce_no_downgrade(&deps, &res).is_ok());
}

#[test]
fn downgrade_guard_fails_closed_without_an_in_range_selection() {
    let res = vec![ranked("react", "17.0.2", 170002)];
    let deps = vec![dep("react", "^18.0.0", Some(("18.2.0", 180200)), vec![false])];
    let err = enforce_no_downgrade(&deps, &res).unwrap_err();
    assert_eq!(
        err,
        "\u{1F6A8} SECURITY: no resolved version of direct dep 'react' satisfies '^18.0.0' \u{2014} refusing to link an out-of-range top level (fail-closed)"
    );
}

#[test]
fn downgrade_guard_ignores_dependencies_without_a_previous_pin() {
    let res = vec![ranked("react", "1.0.0", 10000)];
    let deps = vec![dep("react", "^18.0.0", None, vec![false]), dep("vue", "^3", None, vec![false])];
    assert!(enforce_no_downgrade(&deps, &res).is_ok());
}

#[test]
fn downgrade_guard_reports_the_first_failing_dependency() {
    let res = vec![ranked("a", "1.0.0", 100), ranked("b", "1.0.0", 100)];
    let deps = vec![
        dep("a", "^1", Some(("2.0.0", 200)), vec![true, false]),
        dep("b", "^2", Some(("2.0.0", 200)), vec![false, false]),
    ];
    let err = enforce_no_downgrade(&deps, &res).unwrap_err();
    assert!(err.contains("Downgrade blocked for 'a'"), "{err}");
}

#[test]
fn retry_policy_backs_off_then_gives_up() {
    assert_eq!(retry_step(0, true), RetryStep::Done);
    assert_eq!(retry_step(3, true), RetryStep::Done);
    assert_eq!(retry_step(0, false), RetryStep::RetryAfterMs(50 + 7));
    assert_eq!(retry_step(1, false), RetryStep::RetryAfterMs(100 + 74));
    assert_eq!(retry_step(2, false), RetryStep::RetryAfterMs(200 + 40));
    assert_eq!(retry_step(3, false), RetryStep::GiveUp);
}

fn pkg(name: &str, version: &str) -> ResolvedPackage {
    ResolvedPackage {
        id: id(name, version),
        integrity: format!("sha512-{name}"),
        tarball_url: String::new(),
        deps: vec![id("dep", "1.0.0")],
        peer_deps: Vec::new(),
        direct: true,
        dev: false,
    }
}

#[test]
fn graph_without_packages_drops_only_excluded_ids() {
    let graph = ResolvedGraph { packages: vec![pkg("a", "1.0.0"), pkg("b", "2.0.0"), pkg("a", "1.1.0")] };
    let out = graph_without_packages(&graph, &vec![id("a", "1.0.0"), id("zzz", "9.9.9")]);
    let names: Vec<String> = out.packages.iter().map(|p| format!("{}@{}", p.id.name, p.id.version)).collect();
    assert_eq!(names, vec!["b@2.0.0".to_string(), "a@1.1.0".to_string()]);
    assert_eq!(out.packages[0].integrity, "sha512-b");
    assert_eq!(out.packages[0].deps.len(), 1);
    assert!(graph_without_packages(&graph, &Vec::new()).packages.len() == 3);
}

#[test]
fn bin_targets_must_stay_inside_their_package() {
    assert!(bin_target_within_package("/p/node_modules/x/bin/cli.js", "/p/node_modules/x"));
    assert!(bin_target_within_package("/p/node_modules/x", "/p/node_modules/x/"));
    assert!(!bin_target_within_package("/p/node_modules/xy/cli.js", "/p/node_modules/x"));
    assert!(!bin_target_within_package("/p/node_modules/cli.js", "/p/node_modules/x"));
    assert!(!bin_target_within_package("p/node_modules/x/cli.js", "/p/node_modules/x"));
    assert!(bin_target_within_package("/p//node_modules/x/cli.js", "/p/node_modules/x"));
}

#[test]
fn lock_owner_falls_back_from_marker_to_config_to_web() {
    let known: Vec<String> = ["web", "clo", "py"].iter().map(|s| s.to_string()).collect();
    assert_eq!(lock_owner_core(Some("py"), Some("web"), &known), Ok("py".to_string()));
    assert_eq!(lock_owner_core(None, Some("  Cloud "), &known), Ok("clo".to_string()));
    assert_eq!(lock_owner_core(None, None, &known), Ok("web".to_string()));
    assert_eq!(
        lock_owner_core(Some("rust"), None, &known),
        Err("refusing to write lock entries for unknown core owner 'rust'".to_string())
    );
}

#[test]
fn strict_tree_mode_setting() {
    assert_eq!(strict_tree_link_mode(None), StrictTreeLinkMode::Hardlink);
    assert_eq!(strict_tree_link_mode(Some(" Symlink ")), StrictTreeLinkMode::Symlink);
    assert_eq!(strict_tree_link_mode(Some("FAST")), StrictTreeLinkMode::Symlink);
    assert_eq!(strict_tree_link_mode(Some("link")), StrictTreeLinkMode::Symlink);
    assert_eq!(strict_tree_link_mode(Some("copy")), StrictTreeLinkMode::Hardlink);
    assert_eq!(strict_tree_link_mode(Some("links")), StrictTreeLinkMode::Hardlink);
}

#[test]
fn hardlink_threads_setting() {
    assert_eq!(default_hardlink_threads(None), 2);
    assert_eq!(default_hardlink_threads(Some(64)), 6);
    assert_eq!(default_hardlink_threads(Some(3)), 3);
    assert_eq!(hardlink_thread_count(Some(" 12 "), Some(4)), 12);
    assert_eq!(hardlink_thread_count(Some("0"), Some(4)), 4);
    assert_eq!(hardlink_thread_count(Some("many"), None), 2);
    assert_eq!(hardlink_thread_count(None, Some(1)), 1);
}

#[test]
fn tree_backup_skips_empty_live_dir() {
    assert_eq!(backup_step(true, true, false), BackupStep::Skip);
    assert_eq!(backup_step(false, true, false), BackupStep::Skip);
    assert_eq!(backup_step(true, false, true), BackupStep::RefuseReadOnly);
    assert_eq!(backup_step(true, false, false), BackupStep::MoveAside);
    assert!(read_only_refusal_message("/p/node_modules").contains("'/p/node_modules' is read-only"));
    assert_eq!(rollback_error(&vec!["a".to_string(), "b".to_string()]), "a; b");
    assert_eq!(rollback_error(&vec!["only".to_string()]), "only");
}

#[test]
fn npm_times_before_the_epoch_do_not_parse() {
    assert_eq!(parse_npm_time("1970-01-01T00:00:00Z"), Some(0));
    assert_eq!(parse_npm_time("2026-09-18T12:00:00.000Z"), Some(1789732800));
    assert_eq!(parse_npm_time("1969-12-31T23:59:59Z"), None);
    assert_eq!(parse_npm_time("0000-01-01T00:00:00Z"), None);
}

#[test]
fn quota_prunable_dirs_need_the_marker() {
    assert!(quota_prunable_package_dir(false, true));
    assert!(!quota_prunable_package_dir(false, false));
    assert!(!quota_prunable_package_dir(true, true));
    assert!(cas_file_prunable(Some(100), 50, Some(1)));
    assert!(!cas_file_prunable(Some(100), 50, Some(2)));
    assert!(!cas_file_prunable(Some(10), 50, Some(1)));
    assert!(!cas_file_prunable(None, 50, Some(1)));
    assert!(!cas_file_prunable(Some(100), 50, None));
}
