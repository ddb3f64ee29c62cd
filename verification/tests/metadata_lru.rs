use core_web::metadata_cache::MetadataCache;
use core_web::native::npm_registry::PackageMetadata;
use std::sync::Arc;

fn doc(name: &str) -> Arc<PackageMetadata> {
    Arc::new(PackageMetadata {
        name: name.to_string(),
        description: None,
        versions: Vec::new(),
        dist_tags: Vec::new(),
        time: Vec::new(),
    })
}

#[test]
fn fresh_entry_is_served_within_ttl() {
    let mut cache = MetadataCache::new(None, Some("10"));
    cache.insert_at("left-pad".to_string(), doc("left-pad"), 1_000);
    let got = cache.get_at("left-pad", 1_000 + 9_999_999_999).expect("fresh");
    assert_eq!(got.name, "left-pad");
}

#[test]
fn expired_entry_is_dropped() {
    let mut cache = MetadataCache::new(None, Some("10"));
    cache.insert_at("left-pad".to_string(), doc("left-pad"), 0);
    assert!(cache.get_at("left-pad", 10_000_000_000).is_none());
    // Dropped, not just hidden: an earlier clock reading no longer finds it.
    assert!(cache.get_at("left-pad", 0).is_none());
}

#[test]
fn clock_before_store_counts_as_fresh() {
    let mut cache = MetadataCache::new(None, Some("1"));
    cache.insert_at("a".to_string(), doc("a"), 500);
    assert!(cache.get_at("a", 100).is_some());
}

#[test]
fn zero_ttl_serves_nothing() {
    let mut cache = MetadataCache::new(None, Some("0"));
    cache.insert_at("a".to_string(), doc("a"), 7);
    assert!(cache.get_at("a", 7).is_none());
}

#[test]
fn least_recently_used_entry_leaves_first() {
    let mut cache = MetadataCache::new(Some(" 2 "), None);
    cache.insert_at("a".to_string(), doc("a"), 0);
    cache.insert_at("b".to_string(), doc("b"), 0);
    // Reading "a" makes "b" the least recently used.
    assert!(cache.get_at("a", 1).is_some());
    cache.insert_at("c".to_string(), doc("c"), 2);
    assert!(cache.get_at("b", 3).is_none());
    assert_eq!(cache.get_at("a", 3).unwrap().name, "a");
    assert_eq!(cache.get_at("c", 3).unwrap().name, "c");
}

#[test]
fn zero_capacity_setting_keeps_one_entry() {
    let mut cache = MetadataCache::new(Some("0"), None);
    cache.insert_at("a".to_string(), doc("a"), 0);
    cache.insert_at("b".to_string(), doc("b"), 0);
    assert!(cache.get_at("a", 0).is_none());
    assert!(cache.get_at("b", 0).is_some());
}

#[test]
fn reinsert_replaces_document() {
    let mut cache = MetadataCache::new(None, None);
    cache.insert_at("a".to_string(), doc("first"), 0);
    cache.insert_at("a".to_string(), doc("second"), 5);
    assert_eq!(cache.get_at("a", 6).unwrap().name, "second");
}

#[test]
fn clock_driven_insert_then_get() {
    let mut cache = MetadataCache::new(Some("junk"), Some("3600"));
    cache.insert("react".to_string(), doc("react"));
    assert_eq!(cache.get("react").unwrap().name, "react");
    assert!(cache.get("vue").is_none());
}
