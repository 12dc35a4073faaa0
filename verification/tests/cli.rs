use mcm_finder::cli::{
    api_url, cache_entry_fresh, cache_key, cli_error_at, failure_to_cli_error, new_cache_metadata,
    prepare_cli_search, prepare_save_session, require_identifier, resolve_api_base_url,
    to_model_filters, SaveSessionCommandArgs, SearchCommandArgs, CACHE_TTL_SECONDS,
};
use mcm_finder::models::ModLoader;
use mcm_finder::search::{FailureSeverity, ProviderFailure, ProviderScope};
use sha2::{Digest, Sha256};

fn strings(v: &[&str]) -> Vec<String> {
    v.iter().map(|s| s.to_string()).collect()
}

fn args(query: &str) -> SearchCommandArgs {
    SearchCommandArgs {
        query: query.to_string(),
        version: None,
        loaders: Vec::new(),
        categories: Vec::new(),
        min_downloads: None,
        open_source_only: false,
        updated_within_days: None,
        sort: None,
        providers: Vec::new(),
        force_refresh: false,
    }
}

fn hex(parts: &[&str]) -> String {
    let mut h = Sha256::new();
    for p in parts {
        h.update(p.as_bytes());
    }
    h.finalize().iter().map(|b| format!("{:02x}", b)).collect()
}

#[test]
fn cli_search_checks_query_and_providers() {
    let (q, scope) = prepare_cli_search(&args("  sodium  ")).unwrap();
    assert_eq!(q, "sodium");
    assert_eq!(scope, ProviderScope { modrinth: true, curseforge: true });

    assert_eq!(
        prepare_cli_search(&args("   ")).unwrap_err(),
        "Search query cannot be empty"
    );
    let mut a = args("x");
    a.providers = strings(&["github"]);
    assert_eq!(prepare_cli_search(&a).unwrap_err(), "No valid providers selected");
    a.providers = strings(&["github", " CurseForge "]);
    assert_eq!(
        prepare_cli_search(&a).unwrap().1,
        ProviderScope { modrinth: false, curseforge: true }
    );
}

#[test]
fn cli_filters() {
    let mut a = args("x");
    a.version = Some(" 1.20 ".to_string());
    a.loaders = strings(&["Forge", "nope"]);
    a.categories = strings(&[" ", "tech "]);
    a.open_source_only = true;
    a.updated_within_days = Some(7);
    let f = to_model_filters(&a);
    assert_eq!(f.minecraft_version, Some("1.20".to_string()));
    assert_eq!(f.loaders, vec![ModLoader::Forge]);
    assert_eq!(f.categories, strings(&["tech"]));
    assert!(f.open_source_only);
    assert_eq!(f.update_recency_window_days, Some(7));
}

#[test]
fn cache_key_hashes_the_normalized_arguments() {
    let mut a = args("Sodium");
    a.version = Some("1.20.1".to_string());
    a.loaders = strings(&["Quilt", "fabric"]);
    a.categories = strings(&["Tech", "magic"]);
    a.min_downloads = Some(500);
    a.updated_within_days = Some(30);
    a.open_source_only = true;
    a.sort = Some("downloads".to_string());
    let scope = ProviderScope { modrinth: true, curseforge: true };
    assert_eq!(
        cache_key("Sodium", &a, &scope),
        hex(&[
            "sodium",
            "1.20.1",
            "curseforge,modrinth",
            "fabric,quilt",
            "magic,tech",
            "500",
            "30",
            "1",
            "downloads"
        ])
    );
    let b = args("q");
    let only_modrinth = ProviderScope { modrinth: true, curseforge: false };
    assert_eq!(
        cache_key("q", &b, &only_modrinth),
        hex(&["q", "*", "modrinth", "", "", "*", "*", "0", "relevance"])
    );
}

#[test]
fn cache_key_ignores_the_order_and_case_of_list_arguments() {
    let scope = ProviderScope { modrinth: true, curseforge: false };
    let mut a = args("q");
    a.loaders = strings(&["Fabric", "forge", "quilt"]);
    a.categories = strings(&["b", "A"]);
    let mut b = args("q");
    b.loaders = strings(&["QUILT", "fabric", "Forge"]);
    b.categories = strings(&["a", "B"]);
    assert_eq!(cache_key("q", &a, &scope), cache_key("q", &b, &scope));
    assert_eq!(cache_key("Q", &a, &scope), cache_key("q", &b, &scope));
    b.min_downloads = Some(1);
    assert_ne!(cache_key("q", &a, &scope), cache_key("q", &b, &scope));
}

#[test]
fn cache_freshness() {
    let m = new_cache_metadata(100, 1_000);
    assert_eq!(m.cached_at, 100);
    assert_eq!(m.expires_at, 1_000 + CACHE_TTL_SECONDS);
    assert_eq!(m.cache_version, "1");
    assert_eq!(CACHE_TTL_SECONDS, 604_800);
    assert!(cache_entry_fresh(1_000 + CACHE_TTL_SECONDS - 1, m.expires_at, &m.cache_version));
    assert!(!cache_entry_fresh(1_000 + CACHE_TTL_SECONDS, m.expires_at, &m.cache_version));
    assert!(!cache_entry_fresh(0, m.expires_at, "2"));
}

#[test]
fn base_url_and_api_urls() {
    assert_eq!(resolve_api_base_url(None, None), "http://127.0.0.1:3000");
    assert_eq!(
        resolve_api_base_url(Some("http://a//".to_string()), Some("http://b".to_string())),
        "http://a"
    );
    assert_eq!(
        resolve_api_base_url(None, Some("http://b/".to_string())),
        "http://b"
    );
    assert_eq!(resolve_api_base_url(Some("///".to_string()), None), "");
    assert_eq!(
        api_url("http://a", "/api/v1/mods/", "abc"),
        "http://a/api/v1/mods/abc"
    );
}

#[test]
fn identifiers_and_save_session_notes() {
    assert!(require_identifier(" x ", "mod_id").is_ok());
    assert_eq!(
        require_identifier("  ", "mod_id").unwrap_err(),
        "mod_id cannot be empty"
    );
    let mut s = SaveSessionCommandArgs {
        query_id: "q".to_string(),
        mod_ids: strings(&["m1"]),
        description: None,
        notes: strings(&[" m1 = great = really ", "no equals", "m2=", "=x"]),
        api_base_url: None,
    };
    assert_eq!(
        prepare_save_session(&s).unwrap(),
        vec![
            ("m1".to_string(), "great = really".to_string()),
            ("m2".to_string(), String::new()),
            (String::new(), "x".to_string()),
        ]
    );
    s.mod_ids.clear();
    assert_eq!(
        prepare_save_session(&s).unwrap_err(),
        "At least one --mod-id is required"
    );
    s.query_id = " ".to_string();
    assert_eq!(prepare_save_session(&s).unwrap_err(), "query_id cannot be empty");
}

#[test]
fn cli_failures_are_labelled() {
    let f = ProviderFailure {
        provider: "curseforge".to_string(),
        error: "slow".to_string(),
        severity: FailureSeverity::Timeout,
    };
    let e = cli_error_at(&f, 77);
    assert_eq!(
        (e.provider.as_str(), e.error.as_str(), e.severity.as_str(), e.reason.as_str(), e.timestamp),
        ("curseforge", "slow", "warning", "timeout", 77)
    );
    let now = failure_to_cli_error(&f);
    assert_eq!(now.reason, "timeout");
    assert!(now.timestamp > 1_600_000_000);
}

#[test]
fn cache_keys_are_64_lower_case_hex_digits() {
    let scope = ProviderScope { modrinth: true, curseforge: true };
    let key = cache_key("Any Query", &args("Any Query"), &scope);
    assert_eq!(key.len(), 64);
    assert!(key.chars().all(|c| c.is_ascii_digit() || ('a'..='f').contains(&c)));
    assert_eq!(cache_key("ANY QUERY", &args("x"), &scope), cache_key("any query", &args("x"), &scope));
}
