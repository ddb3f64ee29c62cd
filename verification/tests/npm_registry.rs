use core_web::native::npm_registry::{
    base64_encode, check_publish_age, jitter_ms, lookup_entry, publish_age_outcome, NpmRegistry,
    PackageMetadata,
};

fn metadata_with_time(name: &str, version: &str, published_at: String) -> PackageMetadata {
    PackageMetadata {
        name: name.to_string(),
        description: None,
        versions: Vec::new(),
        dist_tags: Vec::new(),
        time: vec![(version.to_string(), published_at)],
    }
}

fn hours_ago(hours: i64) -> String {
    (chrono::Utc::now() - chrono::Duration::hours(hours)).to_rfc3339()
}

fn blocks_new_package() {
    let meta = metadata_with_time("evil-pkg", "1.0.0", hours_ago(1));

    let result = check_publish_age(&meta, "1.0.0", 86400);
    assert!(result.is_err(), "should block packages published < 24h ago");
    assert!(result.unwrap_err().contains("quarantine"));

    let result = check_publish_age(&meta, "1.0.0", 1800);
    assert!(result.is_ok());
}

fn allows_old_package() {
    let meta = metadata_with_time("safe-pkg", "2.0.0", hours_ago(48));
    let result = check_publish_age(&meta, "2.0.0", 86400);
    assert!(result.is_ok());
}

#[test]
fn npm_registry_test_check_publish_age_blocks_new_package() {
    blocks_new_package();
}

#[test]
fn npm_registry_tests_test_check_publish_age_blocks_new_package() {
    blocks_new_package();
}

#[test]
fn npm_registry_test_check_publish_age_allows_old_package() {
    allows_old_package();
}

#[test]
fn npm_registry_tests_test_check_publish_age_allows_old_package() {
    allows_old_package();
}

#[test]
fn npm_registry_test_base64_encode_hello() {
    assert_eq!(base64_encode(b"Hello"), "SGVsbG8=");
}

#[test]
fn npm_registry_tests_test_base64_encode_hello() {
    assert_eq!(base64_encode(b"Hello"), "SGVsbG8=");
}

#[test]
fn base64_padding_and_length() {
    assert_eq!(base64_encode(b""), "");
    assert_eq!(base64_encode(b"f"), "Zg==");
    assert_eq!(base64_encode(b"fo"), "Zm8=");
    assert_eq!(base64_encode(b"foo"), "Zm9v");
    assert_eq!(base64_encode(b"foob"), "Zm9vYg==");
    assert_eq!(base64_encode(b"fooba"), "Zm9vYmE=");
    assert_eq!(base64_encode(b"foobar"), "Zm9vYmFy");
    assert_eq!(base64_encode(&[0xfb, 0xff, 0xbf]), "+/+/");
    for n in 0..20usize {
        let bytes = vec![7u8; n];
        assert_eq!(base64_encode(&bytes).len(), 4 * ((n + 2) / 3));
    }
}

#[test]
fn publish_time_missing_passes_unchecked() {
    let meta = metadata_with_time("pkg", "1.0.0", hours_ago(1));
    assert_eq!(check_publish_age(&meta, "9.9.9", 86400), Ok(false));
}

#[test]
fn publish_time_checked_passes_with_true() {
    let meta = metadata_with_time("pkg", "1.0.0", hours_ago(48));
    assert_eq!(check_publish_age(&meta, "1.0.0", 86400), Ok(true));
}

#[test]
fn unparsable_publish_time_passes_unchecked() {
    let meta = metadata_with_time("pkg", "1.0.0", "yesterday".to_string());
    assert_eq!(check_publish_age(&meta, "1.0.0", 86400), Ok(false));
}

#[test]
fn quarantine_message_shows_hours_with_one_decimal() {
    let published = 1_000_000_000_000_000_000i128;
    let now = published + 90 * 60 * 1_000_000_000;
    let err = publish_age_outcome("evil", "1.0.0", 86400, published, now).unwrap_err();
    assert_eq!(
        err,
        "\u{1F6A8} SECURITY: Package 'evil@1.0.0' was published only 1.5h ago (< 24h quarantine).\n   This may be a supply-chain attack. Use --allow-untrusted to override."
    );
    assert_eq!(
        publish_age_outcome("ok", "1.0.0", 60, published, published + 60_000_000_000),
        Ok(true)
    );
    // The age is compared to the nanosecond.
    assert!(publish_age_outcome("young", "1.0.0", 60, published, published + 59_999_999_999).is_err());
}

#[test]
fn quarantine_message_for_future_publish_time_is_negative() {
    let published = 1_000_000_000_000_000_000i128;
    let now = published - 30 * 60 * 1_000_000_000;
    let err = publish_age_outcome("p", "1.0.0", 86400, published, now).unwrap_err();
    assert!(err.contains("published only -0.5h ago"));
}

#[test]
fn lookup_entry_takes_first_match() {
    let entries = vec![
        ("a".to_string(), 1u32),
        ("b".to_string(), 2u32),
        ("a".to_string(), 3u32),
    ];
    assert_eq!(lookup_entry(&entries, "a"), Some(&1));
    assert_eq!(lookup_entry(&entries, "b"), Some(&2));
    assert_eq!(lookup_entry(&entries, "c"), None);
}

#[test]
fn registry_keeps_its_url() {
    let r = NpmRegistry::new("https://registry.example");
    assert_eq!(r.registry_url(), "https://registry.example");
}

#[test]
fn jitter_stays_below_one_hundred() {
    for attempt in 0..50u32 {
        assert!(jitter_ms(attempt) < 100);
    }
    assert_eq!(jitter_ms(0), 7);
    assert_eq!(jitter_ms(1), 74);
    assert_eq!(jitter_ms(2), 40);
}
