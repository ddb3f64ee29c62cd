use core_web::audit_range::{audit_range_error, semver_range_checks, RangeCheck};
use core_web::audit::{audit_plan, detect_rival_lockfiles, missing_lock_error, split_audit_pins, AuditPlan};
use core_web::advisory::{
    parse_advisory_bulk_response, type_of_json, AdvisoryEntry, AdvisoryList, AdvisoryRecord,
    AdvisoryResponse, JsonKind,
};

// The semver outcomes (range validity, whether each pinned version is in
// the range) are what the caller computes with its semver implementation;
// here they are written out as that implementation gives them.

const EVIDENCE_AT: u64 = 1_700_000_000;

fn pins(entries: &[(&str, &str)]) -> Vec<(String, String)> {
    entries.iter().map(|(n, v)| (n.to_string(), v.to_string())).collect()
}

fn record(id: u64, vulnerable: &str, severity: &str) -> AdvisoryRecord {
    AdvisoryRecord {
        id: id.to_string(),
        url: "https://github.com/advisories/GHSA-test".to_string(),
        title: "Test advisory".to_string(),
        severity: severity.to_string(),
        vulnerable_versions: vulnerable.to_string(),
    }
}

fn advisory(id: u64, vulnerable: &str, severity: &str, matches: &[bool]) -> AdvisoryEntry {
    AdvisoryEntry::Record {
        record: record(id, vulnerable, severity),
        range_error: None,
        versions: matches.iter().map(|m| Ok(*m)).collect(),
        name_error: None,
    }
}

fn object(entries: Vec<(&str, Vec<AdvisoryEntry>)>) -> AdvisoryResponse {
    AdvisoryResponse::Object {
        entries: entries
            .into_iter()
            .map(|(n, items)| (n.to_string(), AdvisoryList::Items { items }))
            .collect(),
    }
}

#[test]
fn lane_npm_1_clean_response_zero_findings() {
    let payload = object(vec![]);
    let vulns = parse_advisory_bulk_response(&payload, &pins(&[("lodash", "4.17.21")]), EVIDENCE_AT).unwrap();
    assert!(vulns.is_empty());
}

#[test]
fn lane_npm_2_vulnerable_version_matches_range() {
    let payload = object(vec![("lodash", vec![advisory(1102260, "<4.17.21", "high", &[true])])]);
    let vulns = parse_advisory_bulk_response(&payload, &pins(&[("lodash", "4.17.12")]), EVIDENCE_AT).unwrap();
    assert_eq!(vulns.len(), 1);
    assert_eq!(vulns[0].version, "4.17.12");
    assert_eq!(vulns[0].cve, "1102260");
    assert_eq!(vulns[0].severity, "high");
    assert_eq!(vulns[0].patched_versions, "<4.17.21");
    assert_eq!(vulns[0].url, "https://github.com/advisories/GHSA-test");
    assert_eq!(vulns[0].scanner.as_deref(), Some("npm-bulk-advisory"));
    assert_eq!(vulns[0].ecosystem.as_deref(), Some("web/javascript"));
    assert_eq!(vulns[0].evidence_at, Some(EVIDENCE_AT));
}

#[test]
fn lane_npm_3_patched_version_outside_range_no_finding() {
    let payload = object(vec![("lodash", vec![advisory(1102260, "<4.17.21", "high", &[false])])]);
    let vulns = parse_advisory_bulk_response(&payload, &pins(&[("lodash", "4.17.21")]), EVIDENCE_AT).unwrap();
    assert!(vulns.is_empty(), "patched version must not match");
}

#[test]
fn lane_npm_4_malformed_response_fails_closed() {
    let p = &pins(&[("lodash", "4.17.12")]);
    let bad = vec![
        AdvisoryResponse::NotObject { kind: JsonKind::Array },
        AdvisoryResponse::NotObject { kind: JsonKind::String },
        AdvisoryResponse::NotObject { kind: JsonKind::Null },
        AdvisoryResponse::Object {
            entries: vec![("lodash".to_string(), AdvisoryList::NotArray { kind: JsonKind::String })],
        },
        object(vec![(
            "lodash",
            vec![AdvisoryEntry::Malformed {
                message: "invalid type: string \"string-not-number\", expected a number".to_string(),
            }],
        )]),
        object(vec![(
            "lodash",
            vec![AdvisoryEntry::Record {
                record: AdvisoryRecord {
                    id: "1".to_string(),
                    url: "u".to_string(),
                    title: "t".to_string(),
                    severity: "s".to_string(),
                    vulnerable_versions: "garbage-range".to_string(),
                },
                range_error: Some("invalid vulnerable_versions 'garbage-range': unexpected character".to_string()),
                versions: vec![Ok(false)],
                name_error: None,
            }],
        )]),
    ];
    for payload in bad {
        assert!(
            parse_advisory_bulk_response(&payload, p, EVIDENCE_AT).is_err(),
            "malformed response must fail closed: {payload:?}"
        );
    }
}

#[test]
fn lane_npm_5_hostile_package_in_response_is_rejected() {
    let payload = object(vec![("evil-pkg", vec![advisory(1, "<99.0.0", "critical", &[])])]);
    let result = parse_advisory_bulk_response(&payload, &pins(&[("lodash", "4.17.12")]), EVIDENCE_AT);
    assert!(result.is_err());
}

#[test]
fn lane_npm_6_semver_range_edges() {
    let p = &pins(&[("semver-edge", "2.0.0")]);
    let exact = object(vec![("semver-edge", vec![advisory(1, "=2.0.0", "medium", &[true])])]);
    assert_eq!(parse_advisory_bulk_response(&exact, p, EVIDENCE_AT).unwrap().len(), 1, "=2.0.0 must match 2.0.0");
    let above = object(vec![("semver-edge", vec![advisory(2, "<2.0.0", "low", &[false])])]);
    assert!(
        parse_advisory_bulk_response(&above, p, EVIDENCE_AT).unwrap().is_empty(),
        "<2.0.0 must not match 2.0.0"
    );
}

#[test]
fn lane_npm_7_scoped_and_unicode_packages() {
    let payload = object(vec![(
        "@babel/core",
        vec![AdvisoryEntry::Record {
            record: AdvisoryRecord {
                id: "7".to_string(),
                url: "https://x".to_string(),
                title: "RCE trong 📦 @babel/core — lỗi unicode".to_string(),
                severity: "critical".to_string(),
                vulnerable_versions: "<7.24.0".to_string(),
            },
            range_error: None,
            versions: vec![Ok(true)],
            name_error: None,
        }],
    )]);
    let vulns = parse_advisory_bulk_response(&payload, &pins(&[("@babel/core", "7.23.9")]), EVIDENCE_AT).unwrap();
    assert_eq!(vulns.len(), 1);
    assert_eq!(vulns[0].package, "@babel/core");
    assert!(vulns[0].title.contains("📦"));
}

#[test]
fn lane_npm_8_large_response_over_1mb() {
    let total = 12_000;
    let mut entries = Vec::with_capacity(total);
    let mut pin_entries = Vec::with_capacity(total);
    for i in 0..total {
        let name = format!("pkg-{i:05}");
        entries.push((
            name.clone(),
            AdvisoryList::Items { items: vec![advisory(i as u64 + 1, "<1.0.0", "moderate", &[true])] },
        ));
        pin_entries.push((name, "0.9.0".to_string()));
    }
    let payload = AdvisoryResponse::Object { entries };
    let vulns = parse_advisory_bulk_response(&payload, &pin_entries, EVIDENCE_AT).unwrap();
    assert_eq!(vulns.len(), total, "every advisory row must survive");
}

#[test]
fn lane_npm_9_multiple_installed_versions_per_package() {
    let payload = object(vec![("lodash", vec![advisory(1102260, "<4.17.21", "high", &[true, false])])]);
    let vulns = parse_advisory_bulk_response(
        &payload,
        &pins(&[("lodash", "4.17.12"), ("lodash", "4.17.21")]),
        EVIDENCE_AT,
    )
    .unwrap();
    assert_eq!(vulns.len(), 1);
    assert_eq!(vulns[0].version, "4.17.12");
}

#[test]
fn advisory_error_messages() {
    let p = &pins(&[("lodash", "4.17.12")]);
    assert_eq!(
        parse_advisory_bulk_response(&AdvisoryResponse::NotObject { kind: JsonKind::Null }, p, EVIDENCE_AT).unwrap_err(),
        "advisory response must be a JSON object mapping packages to advisory arrays, got: null"
    );
    let hostile = object(vec![("evil", vec![])]);
    assert_eq!(
        parse_advisory_bulk_response(&hostile, p, EVIDENCE_AT).unwrap_err(),
        "advisory response mentions package 'evil' which was not requested \u{2014} possible malformed or hostile response"
    );
    let not_array = AdvisoryResponse::Object {
        entries: vec![("lodash".to_string(), AdvisoryList::NotArray { kind: JsonKind::Number })],
    };
    assert_eq!(
        parse_advisory_bulk_response(&not_array, p, EVIDENCE_AT).unwrap_err(),
        "advisory response for 'lodash' must be an array, got: number"
    );
    let two_bad = object(vec![(
        "lodash",
        vec![
            AdvisoryEntry::Malformed { message: "missing field `url`".to_string() },
            advisory(5, "<5.0.0", "low", &[true]),
            AdvisoryEntry::Record {
                record: record(6, "<9", "low"),
                range_error: None,
                versions: vec![Err("unexpected end of input".to_string())],
                name_error: None,
            },
        ],
    )]);
    assert_eq!(
        parse_advisory_bulk_response(&two_bad, p, EVIDENCE_AT).unwrap_err(),
        "advisory response contained 2 malformed entries: lodash: schema mismatch: missing field `url`; lodash: invalid installed version '4.17.12': unexpected end of input"
    );
    let one_bad = object(vec![(
        "lodash",
        vec![AdvisoryEntry::Record {
            record: record(6, "<9", "low"),
            range_error: None,
            versions: vec![Ok(true)],
            name_error: Some("bad name".to_string()),
        }],
    )]);
    assert_eq!(
        parse_advisory_bulk_response(&one_bad, p, EVIDENCE_AT).unwrap_err(),
        "advisory response contained 1 malformed entry: lodash: invalid package name: bad name"
    );
}

#[test]
fn json_kind_names() {
    assert_eq!(type_of_json(JsonKind::Null), "null");
    assert_eq!(type_of_json(JsonKind::Bool), "bool");
    assert_eq!(type_of_json(JsonKind::Number), "number");
    assert_eq!(type_of_json(JsonKind::String), "string");
    assert_eq!(type_of_json(JsonKind::Array), "array");
    assert_eq!(type_of_json(JsonKind::Object), "object");
}

// An audit without `mgc.lock`: the rival lockfiles present decide between a
// refusal with the import remediation and a clean report of nothing.

#[test]
fn p0_3_rival_lockfile_without_mgc_lock_fails_closed_with_import_remediation() {
    let rival = detect_rival_lockfiles(true, false, false);
    assert_eq!(rival, vec!["bun.lock".to_string()]);
    let err = missing_lock_error(&rival);
    assert!(
        err.contains("mgc.lock is missing") && err.contains("mgc import"),
        "audit must fail-closed with the import remediation, got: {err}"
    );
    assert!(err.contains("mgc import bun"), "{err}");
}

#[test]
fn p0_3_deno_lock_without_mgc_lock_fails_closed_with_import_remediation() {
    let rival = detect_rival_lockfiles(false, true, false);
    let err = missing_lock_error(&rival);
    assert!(
        err.contains("mgc.lock is missing") && err.contains("mgc import deno"),
        "deno.lock remediation must name `mgc import deno`, got: {err}"
    );
    let both = detect_rival_lockfiles(true, true, true);
    assert_eq!(
        missing_lock_error(&both),
        "rival lockfile(s) detected [bun.lock, deno.lock, bun.lockb] but mgc.lock is missing \u{2014} mgc audit consumes mgc.lock ONLY. Run `mgc import deno` to migrate this project first."
    );
}

#[test]
fn p0_3_clean_project_without_any_lockfile_reports_clean_zero() {
    assert!(detect_rival_lockfiles(false, false, false).is_empty());
    let pins = split_audit_pins(&Vec::new());
    assert_eq!(pins.npm.len(), 0);
    assert!(matches!(audit_plan(&pins), AuditPlan::NothingToAudit));
}

fn range_verdict(range: &str, parse_error: Option<&str>, bad_versions: &[&str]) -> Option<String> {
    let checks = semver_range_checks(range);
    let parses: Vec<bool> = checks
        .iter()
        .map(|c| match c {
            RangeCheck::ParseVersion { version, .. } => !bad_versions.contains(&version.as_str()),
            RangeCheck::Fail { .. } => true,
        })
        .collect();
    audit_range_error(range, parse_error, &checks, &parses)
}

#[test]
fn audit_grade_range_validation() {
    assert_eq!(range_verdict("<4.17.21", None, &[]), None);
    assert_eq!(range_verdict(">= 1.0.0 < 2.0.0 || *", None, &[]), None);
    assert_eq!(
        range_verdict("garbage-range", Some("unexpected character"), &[]),
        Some("invalid vulnerable_versions 'garbage-range': unexpected character".to_string())
    );
    assert_eq!(
        range_verdict(">=", None, &[]),
        Some("operator '>=' in '>=' of range '>=' has no version".to_string())
    );
    assert_eq!(
        range_verdict("<1.0 || ", None, &[]),
        Some("empty alternative in range '<1.0 || '".to_string())
    );
    assert_eq!(
        range_verdict("^1.x", None, &["1.x"]),
        Some("token '^1.x' in '^1.x' of range '^1.x' is not a parseable semver version".to_string())
    );
}
