use core_web::install::script_policy::{
    has_install_scripts, lifecycle_scripts_allowed, scripts_run_for, should_run_lifecycle_scripts,
    trust_allows_script, trust_policy_for, ScriptVerdict,
};
use core_web::provider::{
    current_npm_cpu, current_npm_os, known_optional_native_binary_supported, parse_alias_spec,
    platform_matches,
};
use core_web::lifecycle::{LifecycleRunner, PackageScripts};
use core_web::manifest::{
    check_manifest_size, is_workspace_protocol_range, missing_manifest_error, resolvable_dependencies,
};
use core_web::registry_config::{effective_registry_url, validate_registry_allowed, RegistryUrlError};
use core_web::resolution_cache::{manifest_resolution_cache_key, DepEntry};
use core_web::supply_chain::{supply_chain_guards, DEFAULT_QUARANTINE_SECS};
use core_web::update::preferred_saved_range;

#[test]
fn test_trust_gate_fail_closed_with_escape_hatch() {
    // Fail-closed: unlisted runs only under the blanket opt-in.
    assert!(!trust_allows_script(None, false));
    assert!(trust_allows_script(None, true));
    // An explicit policy wins both ways.
    assert!(trust_allows_script(Some("approved"), false));
    assert!(!trust_allows_script(Some("denied"), true));
    // An unknown policy value counts as unlisted.
    assert!(!trust_allows_script(Some("suspicious"), false));
}

#[test]
fn test_lifecycle_scripts_are_opt_in() {
    assert!(!should_run_lifecycle_scripts(false, false, None));
    assert!(should_run_lifecycle_scripts(false, true, None));
    assert!(should_run_lifecycle_scripts(false, false, Some("1")));
    assert!(!should_run_lifecycle_scripts(true, true, Some("1")));
}

#[test]
fn blanket_setting_accepts_truthy_words_only() {
    for v in ["1", "true", "yes", "on", " TRUE ", "On"] {
        assert!(lifecycle_scripts_allowed(Some(v)), "{v}");
    }
    for v in ["0", "false", "no", "off", "", "y", "enabled"] {
        assert!(!lifecycle_scripts_allowed(Some(v)), "{v}");
    }
    assert!(!lifecycle_scripts_allowed(None));
}

#[test]
fn install_script_names() {
    let names = |v: &[&str]| v.iter().map(|s| s.to_string()).collect::<Vec<String>>();
    assert!(has_install_scripts(&names(&["test", "postinstall"])));
    assert!(has_install_scripts(&names(&["preinstall"])));
    assert!(has_install_scripts(&names(&["install"])));
    assert!(!has_install_scripts(&names(&["build", "prepare", "test"])));
    assert!(!has_install_scripts(&names(&[])));
}

#[test]
fn trust_policy_lookup_by_name_and_version() {
    let trust = vec![
        ("left-pad@1.0.0".to_string(), "approved".to_string()),
        ("evil@6.6.6".to_string(), "denied".to_string()),
    ];
    assert_eq!(trust_policy_for(&trust, "left-pad", "1.0.0"), Some("approved".to_string()));
    assert_eq!(trust_policy_for(&trust, "evil", "6.6.6"), Some("denied".to_string()));
    assert_eq!(trust_policy_for(&trust, "evil", "6.6.7"), None);
}

#[test]
fn script_verdicts() {
    assert!(!scripts_run_for(ScriptVerdict::Deny, true));
    assert!(scripts_run_for(ScriptVerdict::Allow, false));
    assert!(scripts_run_for(ScriptVerdict::Undecided, true));
    assert!(!scripts_run_for(ScriptVerdict::Undecided, false));
}

fn dep(group: &str, name: &str, range: &str, dev: bool) -> DepEntry {
    DepEntry {
        group: group.to_string(),
        name: name.to_string(),
        range: range.to_string(),
        dev,
        optional: false,
        peer: false,
    }
}

#[test]
fn test_manifest_resolution_cache_key_ignores_dep_order_and_app_name() {
    let registry_url = "https://registry.npmjs.org";
    // The project's name is not part of the entries, so "demo-a" and
    // "demo-b" give the same input.
    let left = vec![
        dep("dependencies", "react", "^18.2.0", false),
        dep("devDependencies", "zod", "^3.22.4", true),
    ];
    let right = vec![
        dep("devDependencies", "zod", "^3.22.4", true),
        dep("dependencies", "react", "^18.2.0", false),
    ];
    assert_eq!(
        manifest_resolution_cache_key(&left, registry_url),
        manifest_resolution_cache_key(&right, registry_url)
    );
}

#[test]
fn cache_key_depends_on_entries_and_registry() {
    let a = vec![dep("dependencies", "react", "^18.2.0", false)];
    let b = vec![dep("dependencies", "react", "^18.3.0", false)];
    let ka = manifest_resolution_cache_key(&a, "https://registry.npmjs.org");
    assert_eq!(ka.len(), 64);
    assert!(ka.chars().all(|c| c.is_ascii_hexdigit() && !c.is_ascii_uppercase()));
    assert_ne!(ka, manifest_resolution_cache_key(&b, "https://registry.npmjs.org"));
    assert_ne!(ka, manifest_resolution_cache_key(&a, "https://registry.example"));
    // Trailing slashes of the registry URL do not count.
    assert_eq!(ka, manifest_resolution_cache_key(&a, "https://registry.npmjs.org//"));
}

#[test]
fn cache_key_of_no_entries_is_digest_of_header() {
    let expected = <sha2::Sha256 as sha2::Digest>::digest("magicore-web-resolution-v1\0https://r\0".as_bytes());
    let hex: String = expected.iter().map(|b| format!("{b:02x}")).collect();
    assert_eq!(manifest_resolution_cache_key(&Vec::new(), "https://r/"), hex);
}

#[test]
fn test_preferred_saved_range_preserves_strategy() {
    assert_eq!(preferred_saved_range("^4.0.0", "5.1.2"), "^5.1.2");
    assert_eq!(preferred_saved_range("~4.0.0", "5.1.2"), "~5.1.2");
    assert_eq!(preferred_saved_range("*", "5.1.2"), "^5.1.2");
    assert_eq!(preferred_saved_range("4.0.0", "5.1.2"), "5.1.2");
}

#[test]
fn preferred_saved_range_open_ranges_become_caret() {
    assert_eq!(preferred_saved_range(">=1.0.0", "2.0.0"), "^2.0.0");
    assert_eq!(preferred_saved_range(">1.0.0", "2.0.0"), "^2.0.0");
    assert_eq!(preferred_saved_range("<=1.0.0", "2.0.0"), "^2.0.0");
    assert_eq!(preferred_saved_range("", "2.0.0"), "^2.0.0");
}

#[test]
fn test_known_optional_native_binary_supported_only_matches_current_target() {
    let os = current_npm_os("linux");
    let cpu = current_npm_cpu("x86_64");
    let supported = format!("@esbuild/{}-{}", os, cpu);
    assert_eq!(known_optional_native_binary_supported(&supported, &os, &cpu), Some(true));
    assert_eq!(
        known_optional_native_binary_supported("@esbuild/linux-s390x", &os, &cpu),
        Some(false)
    );
    assert_eq!(
        known_optional_native_binary_supported("optional-but-not-native", &os, &cpu),
        None
    );
}

#[test]
fn npm_platform_names() {
    assert_eq!(current_npm_os("macos"), "darwin");
    assert_eq!(current_npm_os("windows"), "win32");
    assert_eq!(current_npm_os("linux"), "linux");
    assert_eq!(current_npm_cpu("x86_64"), "x64");
    assert_eq!(current_npm_cpu("aarch64"), "arm64");
    assert_eq!(current_npm_cpu("x86"), "ia32");
    assert_eq!(current_npm_cpu("powerpc64"), "ppc64");
    assert_eq!(current_npm_cpu("loongarch64"), "loong64");
    assert_eq!(current_npm_cpu("riscv64"), "riscv64");
}

#[test]
fn platform_rules() {
    let rules = |v: &[&str]| v.iter().map(|s| s.to_string()).collect::<Vec<String>>();
    assert!(platform_matches(None, "linux"));
    assert!(platform_matches(Some(&rules(&["linux", "darwin"])), "linux"));
    assert!(!platform_matches(Some(&rules(&["darwin"])), "linux"));
    assert!(!platform_matches(Some(&rules(&["!linux"])), "linux"));
    assert!(platform_matches(Some(&rules(&["!win32"])), "linux"));
}

#[test]
fn alias_specs() {
    assert_eq!(
        parse_alias_spec("npm:string-width@^4.2.0"),
        Some(("string-width".to_string(), "^4.2.0".to_string()))
    );
    assert_eq!(parse_alias_spec("^4.2.0"), None);
}

#[test]
fn supply_chain_guard_settings() {
    let g = supply_chain_guards(false, false, None, false);
    assert!(!g.check_publish_age);
    assert!(g.check_downgrade);
    assert_eq!(g.min_age_secs, DEFAULT_QUARANTINE_SECS as i64);

    let g = supply_chain_guards(true, false, None, false);
    assert!(g.check_publish_age);

    let g = supply_chain_guards(false, false, Some(3600), false);
    assert!(g.check_publish_age);
    assert_eq!(g.min_age_secs, 3600);

    let g = supply_chain_guards(true, true, Some(3600), true);
    assert!(!g.check_publish_age);
    assert!(!g.check_downgrade);
}

#[test]
fn default_registry_is_accepted() {
    assert_eq!(
        effective_registry_url("https://registry.npmjs.org", None, None).unwrap(),
        "https://registry.npmjs.org"
    );
    assert_eq!(
        effective_registry_url("https://registry.npmjs.org", Some("   "), None).unwrap(),
        "https://registry.npmjs.org"
    );
    assert_eq!(
        effective_registry_url("https://registry.npmjs.org", Some(" https://mirror.example "), None)
            .unwrap(),
        "https://mirror.example"
    );
}

#[test]
fn plain_http_refused_except_loopback() {
    match effective_registry_url("https://registry.npmjs.org", Some("http://mirror.example"), None) {
        Err(RegistryUrlError::NotHttps { url }) => assert_eq!(url, "http://mirror.example"),
        other => panic!("unexpected {other:?}"),
    }
    assert!(effective_registry_url("x", Some("http://127.0.0.1:4873"), None).is_ok());
    assert!(effective_registry_url("x", Some("http://localhost:4873/"), None).is_ok());
}

#[test]
fn registry_allow_list() {
    assert!(validate_registry_allowed("https://a.example", None).is_ok());
    assert!(validate_registry_allowed("https://a.example", Some(" , ")).is_ok());
    assert!(validate_registry_allowed("https://a.example/", Some("https://b.example, https://a.example")).is_ok());
    match validate_registry_allowed("https://c.example", Some("https://a.example")) {
        Err(RegistryUrlError::NotAllowed { url, allowed }) => {
            assert_eq!(url, "https://c.example");
            assert_eq!(allowed, "https://a.example");
        }
        other => panic!("unexpected {other:?}"),
    }
    assert!(matches!(
        effective_registry_url("https://c.example", None, Some("https://a.example")),
        Err(RegistryUrlError::NotAllowed { .. })
    ));
}

#[test]
fn manifest_reading_rules() {
    assert!(check_manifest_size(10 * 1024 * 1024).is_ok());
    assert_eq!(
        check_manifest_size(10 * 1024 * 1024 + 1).unwrap_err(),
        "package.json is too large (10485761 bytes, max 10485760)"
    );
    assert_eq!(
        missing_manifest_error("/p"),
        "No package.json in '/p'. Run 'mg init --template web' first."
    );
    let entries = vec![
        ("react".to_string(), "^18.0.0".to_string()),
        ("ui".to_string(), " workspace:* ".to_string()),
        ("lib".to_string(), "workspace:^1.0.0".to_string()),
        ("zod".to_string(), "3.22.4".to_string()),
    ];
    assert_eq!(
        resolvable_dependencies(&entries),
        vec![
            ("react".to_string(), "^18.0.0".to_string()),
            ("zod".to_string(), "3.22.4".to_string())
        ]
    );
    assert!(is_workspace_protocol_range("workspace:~"));
    assert!(!is_workspace_protocol_range("npm:workspace@1"));
}

#[test]
fn lifecycle_scripts_run_in_install_order() {
    let scripts = PackageScripts {
        preinstall: None,
        install: Some("node-gyp rebuild".to_string()),
        postinstall: Some("node install.js".to_string()),
    };
    assert_eq!(
        LifecycleRunner::scripts_to_run(&scripts),
        vec![
            ("install".to_string(), "node-gyp rebuild".to_string()),
            ("postinstall".to_string(), "node install.js".to_string())
        ]
    );
    let none = PackageScripts { preinstall: None, install: None, postinstall: None };
    assert!(LifecycleRunner::scripts_to_run(&none).is_empty());
    let env = LifecycleRunner::script_env("/p/node_modules/.bin:/usr/bin", "/p", &vec![("FOO".to_string(), "1".to_string())]);
    assert_eq!(
        env,
        vec![
            ("PATH".to_string(), "/p/node_modules/.bin:/usr/bin".to_string()),
            ("INIT_CWD".to_string(), "/p".to_string()),
            ("npm_config_node_gyp".to_string(), "node-gyp".to_string()),
            ("FOO".to_string(), "1".to_string())
        ]
    );
    assert_eq!(
        LifecycleRunner::wrapper_refusal("/p/node_modules/x/package.json", "pnpm"),
        "lifecycle script in '/p/node_modules/x/package.json' delegates to 'pnpm'; core-web refuses package-manager wrappers inside lifecycle execution"
    );
    assert_eq!(LifecycleRunner::unsupported_script_error("install", "shell"), "unsupported lifecycle script 'install': shell");
    assert_eq!(LifecycleRunner::script_failed_error("install", "exit 1"), "lifecycle script 'install' failed: exit 1");
}

#[test]
fn test_maybe_prune_skips_quota_scan_when_gc_not_due() {
    // A stamp written just now is younger than the interval: no pruning.
    assert!(!core_web::cache_prune::shared_cache_prune_due(Some(0), 86400));
    assert!(core_web::cache_prune::shared_cache_prune_due(Some(86400), 86400));
    assert!(core_web::cache_prune::shared_cache_prune_due(None, 86400));
}

#[test]
fn test_prefetch_defaults_are_conservative() {
    assert!(!core_web::env_config::flag_value_enabled(None));
}

#[test]
fn test_prefetch_flag_can_be_enabled_explicitly() {
    assert!(core_web::env_config::flag_value_enabled(Some("1")));
}
