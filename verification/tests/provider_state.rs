use core_web::native::npm_registry::NpmRegistry;
use core_web::provider::{AgePolicy, DepRequest, NpmDependencyProvider};

fn provider() -> NpmDependencyProvider {
    NpmDependencyProvider::new(NpmRegistry::new("https://registry.npmjs.org"), None)
}

fn strings(v: &[&str]) -> Vec<String> {
    v.iter().map(|s| s.to_string()).collect()
}

#[test]
fn versions_are_read_back_for_the_package() {
    let mut p = provider();
    assert!(p.cached_versions_for("react").is_none());
    p.insert_versions_for("react", strings(&["18.2.0", "18.3.1"]));
    assert_eq!(p.cached_versions_for("react"), Some(strings(&["18.2.0", "18.3.1"])));
    p.insert_versions_for("react", strings(&["19.0.0"]));
    assert_eq!(p.cached_versions_for("react"), Some(strings(&["19.0.0"])));
}

#[test]
fn alias_shares_the_versions_of_its_target() {
    let mut p = provider();
    p.record_alias_target("my-lodash", "lodash");
    assert_eq!(p.source_package_name("my-lodash"), "lodash");
    assert_eq!(p.source_package_name("lodash"), "lodash");
    p.insert_versions_for("my-lodash", strings(&["4.17.21"]));
    assert_eq!(p.cached_versions_for("lodash"), Some(strings(&["4.17.21"])));
    // An alias without its own entry reads its target's list.
    p.record_alias_target("other-lodash", "lodash");
    assert_eq!(p.cached_versions_for("other-lodash"), Some(strings(&["4.17.21"])));
    // Re-recording an alias replaces its target.
    p.record_alias_target("other-lodash", "underscore");
    assert_eq!(p.source_package_name("other-lodash"), "underscore");
    assert!(p.cached_versions_for("other-lodash").is_none());
}

#[test]
fn age_policy_is_replaced_per_operation() {
    let mut p = provider();
    assert!(p.age_policy().is_none());
    assert!(!p.age_gate_armed_for_test());
    p.set_age_policy(Some(AgePolicy { cutoff_hours: 72, allow_missing_time: false }));
    assert!(p.age_gate_armed_for_test());
    p.set_age_policy(Some(AgePolicy { cutoff_hours: 0, allow_missing_time: true }));
    assert!(!p.age_gate_armed_for_test());
    p.set_age_policy(None);
    assert!(p.age_policy().is_none());
}

#[test]
fn optional_verdicts_are_cached_by_request() {
    let mut p = provider();
    let dep = DepRequest {
        package: "fsevents".to_string(),
        spec: "^2.3.2".to_string(),
        optional: true,
        peer: false,
        alias_target: None,
    };
    let key = NpmDependencyProvider::optional_enqueue_key(&dep);
    assert_eq!(key, "fsevents@^2.3.2");
    assert_eq!(p.cached_optional_enqueue(&key), None);
    p.record_optional_enqueue(&key, false);
    assert_eq!(p.cached_optional_enqueue(&key), Some(false));
    p.record_optional_enqueue(&key, true);
    assert_eq!(p.cached_optional_enqueue(&key), Some(true));
    assert_eq!(NpmDependencyProvider::version_key("react", "18.2.0"), "react@18.2.0");
}
