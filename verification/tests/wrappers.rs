use core_web::audit::{allow_insecure_loopback_url, is_tarball_url_trusted, registry_advisory_bulk_endpoint, EndpointError};
use core_web::cache::{sanitize_pkg_name, SharedWebCache};
use core_web::install::integrity::{
    compute_sha256_b64_str, compute_sha512_b64, compute_tarball_integrity, verify_sri_integrity,
    IntegrityError,
};
use core_web::install::package_marker::{
    compute_sha256_hex, content_signature_from_listing, tarball_content_signature, SignatureError,
    TarEntryInfo,
};
use core_web::types::{PackageId, ResolvedPackage};
use core_web::wasm::{is_wasm_artifact_name, wasm_artifact_verdict, wasm_scan_skips};

fn tgz(entries: &[(&str, &[u8])]) -> Vec<u8> {
    let enc = flate2::write::GzEncoder::new(Vec::new(), flate2::Compression::default());
    let mut b = tar::Builder::new(enc);
    for (path, data) in entries {
        let mut h = tar::Header::new_gnu();
        h.set_size(data.len() as u64);
        h.set_mode(0o644);
        h.set_cksum();
        b.append_data(&mut h, path, *data).unwrap();
    }
    b.into_inner().unwrap().finish().unwrap()
}

fn tgz_raw_name(name: &[u8], kind: tar::EntryType) -> Vec<u8> {
    let enc = flate2::write::GzEncoder::new(Vec::new(), flate2::Compression::default());
    let mut b = tar::Builder::new(enc);
    let mut h = tar::Header::new_gnu();
    h.as_mut_bytes()[..name.len()].copy_from_slice(name);
    h.set_size(0);
    h.set_mode(0o644);
    h.set_entry_type(kind);
    h.set_cksum();
    b.append(&h, &[][..]).unwrap();
    b.into_inner().unwrap().finish().unwrap()
}

#[test]
fn sha256_hex_of_abc() {
    assert_eq!(
        compute_sha256_hex(b"abc"),
        "ba7816bf8f01cfea414140de5dae2223b00361a396177a9cb410ff61f20015ad"
    );
}

#[test]
fn sha512_and_sha256_in_base64() {
    assert_eq!(
        compute_sha512_b64(b"abc"),
        "3a81oZNherrMQXNJriBBMRLm+k6JqX6iCp7u5ktV05ohkpkqJ0/BqDa6PCOj/uu9RU1EI2Q86A4qmslPpUyknw=="
    );
    assert_eq!(compute_sha256_b64_str(b"abc"), "ungWv48Bz+pBQUDeXa4iI7ADYaOWF3qctBD/YfIAFa0=");
    assert_eq!(
        compute_tarball_integrity(b"abc"),
        "sha512-3a81oZNherrMQXNJriBBMRLm+k6JqX6iCp7u5ktV05ohkpkqJ0/BqDa6PCOj/uu9RU1EI2Q86A4qmslPpUyknw=="
    );
}

fn pkg_with(integrity: &str) -> ResolvedPackage {
    ResolvedPackage {
        id: PackageId { name: "demo".to_string(), version: "1.0.0".to_string() },
        integrity: integrity.to_string(),
        tarball_url: String::new(),
        deps: Vec::new(),
        peer_deps: Vec::new(),
        direct: true,
        dev: false,
    }
}

#[test]
fn sri_errors() {
    let bytes = b"abc";
    match verify_sri_integrity(&pkg_with(""), bytes, true) {
        Err(IntegrityError::Missing { package }) => assert_eq!(package, "demo"),
        other => panic!("unexpected {other:?}"),
    }
    assert!(verify_sri_integrity(&pkg_with(""), bytes, false).is_ok());
    match verify_sri_integrity(&pkg_with("sha1-qZk+NkcGgWq6PiVxeFDCbJzQ2J0="), bytes, true) {
        Err(IntegrityError::WeakAlgorithm { package, algorithm }) => {
            assert_eq!(package, "demo");
            assert_eq!(algorithm, "sha1");
        }
        other => panic!("unexpected {other:?}"),
    }
    match verify_sri_integrity(&pkg_with("md5-kAFQmDzST7DWlj99KOF/cg=="), bytes, false) {
        Err(IntegrityError::OnlyWeak { package }) => assert_eq!(package, "demo"),
        other => panic!("unexpected {other:?}"),
    }
    match verify_sri_integrity(&pkg_with("sha256-AAAA"), bytes, false) {
        Err(IntegrityError::Mismatch { package }) => assert_eq!(package, "demo"),
        other => panic!("unexpected {other:?}"),
    }
    let good = format!("sha256-{}", compute_sha256_b64_str(bytes));
    assert!(verify_sri_integrity(&pkg_with(&good), bytes, true).is_ok());
    let mixed = format!("sha512-AAAA {}", good);
    assert!(verify_sri_integrity(&pkg_with(&mixed), bytes, true).is_ok());
}

#[test]
fn sri_error_texts() {
    let bytes = b"abc";
    let text = |integrity: &str, strict: bool| verify_sri_integrity(&pkg_with(integrity), bytes, strict).unwrap_err().message();
    assert_eq!(text("", true), "strict integrity: 'demo' has no SRI integrity field");
    assert_eq!(
        text("md5-kAFQmDzST7DWlj99KOF/cg==", true),
        "strict integrity: 'demo' uses weak hash algorithm 'md5' (only sha256/sha512 allowed)"
    );
    assert_eq!(
        text("sha1-qZk+NkcGgWq6PiVxeFDCbJzQ2J0=", false),
        "integrity check failed for 'demo': only weak algorithms present (sha1/md5)"
    );
    assert_eq!(text("sha512-AAAA", false), "integrity mismatch for 'demo': none of the SRI entries matched");
}

#[test]
fn loopback_http_only() {
    assert!(allow_insecure_loopback_url("http://127.0.0.1:4873"));
    assert!(allow_insecure_loopback_url("http://localhost/"));
    assert!(!allow_insecure_loopback_url("http://example.com"));
    assert!(!allow_insecure_loopback_url("https://localhost"));
    assert!(!allow_insecure_loopback_url("not a url"));
}

#[test]
fn advisory_endpoint_is_joined_relative() {
    assert_eq!(
        registry_advisory_bulk_endpoint("https://registry.npmjs.org").unwrap(),
        "https://registry.npmjs.org/-/npm/v1/security/advisories/bulk"
    );
    assert_eq!(
        registry_advisory_bulk_endpoint("https://r.example/npm/").unwrap(),
        "https://r.example/npm/-/npm/v1/security/advisories/bulk"
    );
    assert_eq!(
        registry_advisory_bulk_endpoint("https://r.example/npm").unwrap(),
        "https://r.example/-/npm/v1/security/advisories/bulk"
    );
    match registry_advisory_bulk_endpoint("not a url") {
        Err(EndpointError::InvalidRegistryUrl { registry_url }) => assert_eq!(registry_url, "not a url"),
        other => panic!("unexpected {other:?}"),
    }
}

#[test]
fn tarball_hosts() {
    assert!(is_tarball_url_trusted(
        "https://registry.npmjs.org/a/-/a-1.0.0.tgz",
        "https://registry.npmjs.org",
        None
    ));
    assert!(!is_tarball_url_trusted(
        "https://evil.example/a/-/a-1.0.0.tgz",
        "https://registry.npmjs.org",
        None
    ));
    assert!(is_tarball_url_trusted(
        "https://registry.yarnpkg.com/a/-/a-1.0.0.tgz",
        "https://registry.npmjs.org",
        None
    ));
    assert!(is_tarball_url_trusted(
        "https://cdn.example/a.tgz",
        "https://mirror.example",
        Some("cdn.example")
    ));
    assert!(!is_tarball_url_trusted("https://cdn.example/a.tgz", "https://mirror.example", None));
    assert!(is_tarball_url_trusted("http://localhost:4873/a.tgz", "https://mirror.example", None));
}

#[test]
fn metadata_path_turns_registry_into_a_directory_name() {
    let cache = SharedWebCache { root: "/c".to_string() };
    assert_eq!(
        cache.metadata_path("react", "https://registry.npmjs.org"),
        "/c/metadata/https___registry_npmjs_org/react/metadata.json"
    );
    // Unicode letters count as alphanumeric.
    assert_eq!(
        cache.metadata_path("p", "https://régistry.example"),
        "/c/metadata/https___régistry_example/p/metadata.json"
    );
    assert_eq!(sanitize_pkg_name("@types/node"), "types__node");
}

#[test]
fn tarball_signature_of_a_real_archive() {
    let bytes = tgz(&[("package/package.json", b"0123456789"), ("package/lib/a.js", b"hello")]);
    let sig = tarball_content_signature(&bytes).unwrap();
    assert_eq!(sig.file_count, 2);
    assert_eq!(sig.unpacked_size, 15);
    assert_eq!(
        sig.file_tree_sha256,
        "6f9a3809d2f5d5d8e2276c595f62b933147eb57048665d572c157fbff0f3c7d7"
    );
    // The order of the archive does not matter for distinct paths.
    let swapped = tgz(&[("package/lib/a.js", b"hello"), ("package/package.json", b"0123456789")]);
    assert_eq!(tarball_content_signature(&swapped).unwrap().file_tree_sha256, sig.file_tree_sha256);
}

#[test]
fn tarball_signature_refuses_links_and_unsafe_paths() {
    let link = tgz_raw_name(b"package/link", tar::EntryType::Symlink);
    match tarball_content_signature(&link) {
        Err(SignatureError::LinkNotAllowed { path }) => assert_eq!(path, "package/link"),
        other => panic!("unexpected {other:?}"),
    }
    let escape = tgz_raw_name(b"../evil", tar::EntryType::Regular);
    match tarball_content_signature(&escape) {
        Err(SignatureError::UnsafePath { path }) => assert_eq!(path, "../evil"),
        other => panic!("unexpected {other:?}"),
    }
    assert!(matches!(tarball_content_signature(b"not gzip"), Err(SignatureError::Read { .. })));
}

#[test]
fn listing_errors_and_empty_path() {
    let e = |kind: u8, path: &str, size: Option<u64>| TarEntryInfo { kind, path: path.to_string(), size };
    assert!(matches!(
        content_signature_from_listing(&vec![e(b'0', "./", Some(1))], None),
        Err(SignatureError::EmptyPath)
    ));
    assert!(matches!(
        content_signature_from_listing(&vec![e(b'3', "dev", Some(0))], None),
        Err(SignatureError::UnsupportedEntry { .. })
    ));
    assert!(matches!(
        content_signature_from_listing(&vec![e(b'0', "a", None)], None),
        Err(SignatureError::BadSize { .. })
    ));
    assert!(matches!(
        content_signature_from_listing(&vec![e(b'0', "a", Some(1))], Some("truncated".to_string())),
        Err(SignatureError::Read { .. })
    ));
    let ok = content_signature_from_listing(&vec![e(b'5', "package/", None), e(b'0', "package/x", Some(3))], None)
        .unwrap();
    assert_eq!((ok.file_count, ok.unpacked_size), (1, 3));
}

#[test]
fn wasm_provenance_checks() {
    assert!(wasm_scan_skips("node_modules"));
    assert!(wasm_scan_skips(".git"));
    assert!(!wasm_scan_skips("src"));
    assert!(is_wasm_artifact_name("pkg/app_bg.wasm"));
    assert!(!is_wasm_artifact_name("app.wasm.map"));
    assert!(wasm_artifact_verdict("a.wasm", Some(b"\0asm\x01\0\0\0")).is_ok());
    assert_eq!(
        wasm_artifact_verdict("a.wasm", Some(b"\0asm")).unwrap_err(),
        "a.wasm is not a valid wasm module (bad magic header) \u{2014} provenance cannot be verified"
    );
    assert_eq!(wasm_artifact_verdict("b.wasm", None).unwrap_err(), "cannot read wasm artifact b.wasm");
}
