use mcm_finder::modrinth::{is_summary_cuttable, normalize_project_details, normalize_search_hits};
use mcm_finder::models::{ModLoader, Provider};
use mcm_finder::modrinth::{
    check_hit, check_project, check_status, dedup_strings, is_valid_version, latest_release_date, listed_versions,
    normalize_hit, normalize_hits, normalize_project, search_cache_key, search_params,
    should_lookup_versions, summarize, ModrinthHit, ModrinthLicense, ModrinthProjectDetails,
    ProviderError,
};
use mcm_finder::time::Timestamp;
use sha2::{Digest, Sha256};

fn strings(v: &[&str]) -> Vec<String> {
    v.iter().map(|s| s.to_string()).collect()
}

fn hit() -> ModrinthHit {
    ModrinthHit {
        project_id: "AANobbMI".to_string(),
        slug: "sodium".to_string(),
        title: "Sodium".to_string(),
        description: "A rendering engine".to_string(),
        categories: strings(&["optimization"]),
        author: "jellysquid3".to_string(),
        downloads: 1000,
        follows: Some(10),
        date_created: "2021-01-01T00:00:00Z".to_string(),
        date_modified: "2024-01-01T00:00:00Z".to_string(),
        license: Some("LGPL-3.0".to_string()),
        versions: strings(&["1.20.1", "bad version", "23w13a", ""]),
        loaders: strings(&["fabric", "quilt", "bukkit"]),
    }
}

fn project() -> ModrinthProjectDetails {
    ModrinthProjectDetails {
        id: "AANobbMI".to_string(),
        slug: "sodium".to_string(),
        title: "Sodium".to_string(),
        description: "A rendering engine".to_string(),
        body: Some("<p>body</p>".to_string()),
        categories: strings(&["optimization", "fabric"]),
        additional_categories: strings(&["client", "fabric"]),
        team: "team-1".to_string(),
        downloads: 5,
        followers: None,
        published: "2021-01-01T00:00:00Z".to_string(),
        updated: "2024-01-01T00:00:00+02:00".to_string(),
        license: Some(ModrinthLicense { id: None, name: Some("GNU LGPL".to_string()) }),
        versions: strings(&["1.20.1"]),
        loaders: strings(&["Fabric"]),
        source_url: Some("https://github.com/x/y".to_string()),
    }
}

fn message(e: ProviderError) -> String {
    match e {
        ProviderError::InvalidResponse(m) => m,
        other => panic!("unexpected {:?}", other),
    }
}

#[test]
fn hit_is_normalized() {
    let p = normalize_hit(hit()).unwrap();
    assert_eq!(p.source, Provider::Modrinth);
    assert_eq!(p.provider_mod_id, "AANobbMI");
    assert_eq!(p.provider_url, "https://modrinth.com/mod/sodium");
    assert_eq!(p.summary, "A rendering engine");
    assert_eq!(p.supported_versions, strings(&["1.20.1", "23w13a"]));
    assert_eq!(p.supported_loaders, vec![ModLoader::Fabric, ModLoader::Quilt]);
    assert_eq!(p.created_at, Timestamp { secs: 1_609_459_200, nanos: 0 });
    assert_eq!(p.last_updated, Timestamp { secs: 1_704_067_200, nanos: 0 });
    assert_eq!(p.followers, Some(10));
    assert_eq!(p.license, Some("LGPL-3.0".to_string()));
    assert!(p.description_html.is_none());
    assert!(p.source_url.is_none());
}

#[test]
fn hit_errors_in_order() {
    let mut h = hit();
    h.title = String::new();
    assert_eq!(message(normalize_hit(h).unwrap_err()), "Invalid title length");
    let mut h = hit();
    h.title = "t".repeat(101);
    assert_eq!(message(normalize_hit(h).unwrap_err()), "Invalid title length");
    let mut h = hit();
    h.project_id = String::new();
    assert_eq!(message(normalize_hit(h).unwrap_err()), "Missing project_id");
    let mut h = hit();
    h.date_created = "nope".to_string();
    assert!(message(normalize_hit(h).unwrap_err()).starts_with("Invalid date_created: "));
    let mut h = hit();
    h.date_modified = "nope".to_string();
    assert!(message(normalize_hit(h).unwrap_err()).starts_with("Invalid date_modified: "));
    let mut h = hit();
    h.date_modified = "2020-01-01T00:00:00Z".to_string();
    assert_eq!(message(normalize_hit(h).unwrap_err()), "created_at > last_updated");
    let mut h = hit();
    h.loaders = strings(&["bukkit"]);
    assert_eq!(message(normalize_hit(h).unwrap_err()), "No valid loaders");
}

#[test]
fn long_descriptions_are_cut_at_497_bytes() {
    let d = "a".repeat(600);
    let s = summarize(&d);
    assert_eq!(s.len(), 500);
    assert_eq!(s, format!("{}...", "a".repeat(497)));
    let exact = "b".repeat(500);
    assert_eq!(summarize(&exact), exact);
    // One byte, then two-byte characters: byte 497 is a boundary.
    let mixed = format!("x{}", "é".repeat(300));
    let s = summarize(&mixed);
    assert_eq!(s, format!("x{}...", "é".repeat(248)));
}

#[test]
fn normalize_hits_keeps_the_good_ones_in_order() {
    let mut bad = hit();
    bad.loaders = Vec::new();
    let mut second = hit();
    second.slug = "lithium".to_string();
    let out = normalize_hits(vec![hit(), bad, second]);
    assert_eq!(out.len(), 2);
    assert_eq!(out[0].slug, "sodium");
    assert_eq!(out[1].slug, "lithium");
}

#[test]
fn project_is_normalized() {
    let p = normalize_project(project()).unwrap();
    assert_eq!(p.author, "team-1");
    assert_eq!(p.description_html, Some("<p>body</p>".to_string()));
    assert_eq!(p.categories, strings(&["client", "fabric", "optimization"]));
    assert_eq!(p.license, Some("GNU LGPL".to_string()));
    assert_eq!(p.last_updated, Timestamp { secs: 1_704_060_000, nanos: 0 });
    assert_eq!(p.source_url, Some("https://github.com/x/y".to_string()));
    assert_eq!(p.supported_loaders, vec![ModLoader::Fabric]);

    let mut q = project();
    q.license = Some(ModrinthLicense { id: Some("MIT".to_string()), name: Some("x".to_string()) });
    assert_eq!(normalize_project(q).unwrap().license, Some("MIT".to_string()));
    let mut q = project();
    q.license = None;
    assert_eq!(normalize_project(q).unwrap().license, None);
}

#[test]
fn project_errors_in_order() {
    let mut q = project();
    q.title = "t".repeat(101);
    assert_eq!(message(normalize_project(q).unwrap_err()), "Invalid title length");
    let mut q = project();
    q.published = "x".to_string();
    assert!(message(normalize_project(q).unwrap_err()).starts_with("Invalid published date: "));
    let mut q = project();
    q.updated = "x".to_string();
    assert!(message(normalize_project(q).unwrap_err()).starts_with("Invalid updated date: "));
    let mut q = project();
    q.loaders = strings(&["paper"]);
    assert_eq!(message(normalize_project(q).unwrap_err()), "No valid loaders");
}

#[test]
fn versions_and_dedup() {
    assert!(is_valid_version("1.20.1"));
    assert!(is_valid_version("1.20-pre1"));
    assert!(!is_valid_version(""));
    assert!(!is_valid_version("1.20 1"));
    assert_eq!(listed_versions(&strings(&["a_b", "b"])), strings(&["b"]));
    assert_eq!(
        dedup_strings(strings(&["a", "a", "b", "a", "a"])),
        strings(&["a", "b", "a"])
    );
}

#[test]
fn cache_key_is_the_sha256_of_the_key_material() {
    let mut h = Sha256::new();
    h.update("modrinth");
    h.update("sodium mod");
    h.update("1.20.1");
    let expected: String = h.finalize().iter().map(|b| format!("{:02x}", b)).collect();
    assert_eq!(search_cache_key("  Sodium MOD ", Some("1.20.1")), expected);

    let mut h = Sha256::new();
    h.update("modrinth");
    h.update("x");
    h.update("*");
    let expected: String = h.finalize().iter().map(|b| format!("{:02x}", b)).collect();
    assert_eq!(search_cache_key("X", None), expected);
    assert_ne!(search_cache_key("X", None), search_cache_key("X", Some("1.20")));
}

#[test]
fn search_parameters() {
    let p = search_params("sodium", Some("1.20.1"));
    assert_eq!(
        p,
        vec![
            ("query".to_string(), "sodium".to_string()),
            ("limit".to_string(), "50".to_string()),
            ("facets".to_string(), "[[\"versions:1.20.1\"]]".to_string()),
        ]
    );
    assert_eq!(search_params("s", Some("bad version")).len(), 2);
    assert_eq!(search_params("s", None).len(), 2);
}

#[test]
fn statuses() {
    assert!(check_status(200, None, "200 OK").is_ok());
    match check_status(429, Some("12"), "429 Too Many Requests") {
        Err(ProviderError::RateLimited(12)) => {}
        other => panic!("unexpected {:?}", other),
    }
    match check_status(429, Some("soon"), "429 Too Many Requests") {
        Err(ProviderError::RateLimited(60)) => {}
        other => panic!("unexpected {:?}", other),
    }
    match check_status(429, None, "429 Too Many Requests") {
        Err(ProviderError::RateLimited(60)) => {}
        other => panic!("unexpected {:?}", other),
    }
    match check_status(503, None, "503 Service Unavailable") {
        Err(ProviderError::Unavailable(m)) => {
            assert_eq!(m, "Modrinth API returned status 503 Service Unavailable")
        }
        other => panic!("unexpected {:?}", other),
    }
}

#[test]
fn version_lookup_and_latest_release() {
    assert!(should_lookup_versions("abc", "1.20"));
    assert!(!should_lookup_versions("  ", "1.20"));
    assert!(!should_lookup_versions("abc", ""));
    let releases = vec![
        (true, "2023-01-01T00:00:00Z".to_string()),
        (false, "2025-01-01T00:00:00Z".to_string()),
        (true, "not a date".to_string()),
        (true, "2024-01-01T00:00:00Z".to_string()),
        (true, "2022-01-01T00:00:00Z".to_string()),
    ];
    assert_eq!(
        latest_release_date(&releases),
        Some(Timestamp { secs: 1_704_067_200, nanos: 0 })
    );
    assert_eq!(latest_release_date(&[]), None);
    assert_eq!(latest_release_date(&[(false, "2024-01-01T00:00:00Z".to_string())]), None);
}

#[test]
fn checks_run_before_the_description_is_cut() {
    let mut h = hit();
    h.title = String::new();
    // Byte 497 falls inside a two-byte character, but the hit is refused before any cut.
    h.description = "é".repeat(300);
    assert_eq!(message(normalize_hit(h).unwrap_err()), "Invalid title length");

    let (created, modified, loaders) = check_hit(&hit()).unwrap();
    assert_eq!(created, Timestamp { secs: 1_609_459_200, nanos: 0 });
    assert_eq!(modified, Timestamp { secs: 1_704_067_200, nanos: 0 });
    assert_eq!(loaders, vec![ModLoader::Fabric, ModLoader::Quilt]);

    let mut q = project();
    q.loaders = Vec::new();
    assert_eq!(message(check_project(&q).unwrap_err()), "No valid loaders");
    let (published, _, loaders) = check_project(&project()).unwrap();
    assert_eq!(published, Timestamp { secs: 1_609_459_200, nanos: 0 });
    assert_eq!(loaders, vec![ModLoader::Fabric]);
}

#[test]
fn uncuttable_descriptions_are_detected_and_refused() {
    assert!(is_summary_cuttable(&"a".repeat(500)));
    assert!(is_summary_cuttable(&"a".repeat(600)));
    assert!(is_summary_cuttable(&format!("x{}", "é".repeat(300))));
    assert!(!is_summary_cuttable(&"é".repeat(300)));
    assert!(is_summary_cuttable(&"é".repeat(250)));

    let mut bad = hit();
    bad.description = "é".repeat(300);
    assert!(normalize_search_hits(vec![hit(), bad]).is_none());
    let mut refused = hit();
    refused.description = "é".repeat(300);
    refused.loaders = Vec::new();
    let out = normalize_search_hits(vec![hit(), refused]).unwrap();
    assert_eq!(out.len(), 1);

    let mut q = project();
    q.description = "é".repeat(300);
    assert!(normalize_project_details(q).is_none());
    let mut q = project();
    q.description = "é".repeat(300);
    q.title = String::new();
    assert_eq!(message(normalize_project_details(q).unwrap().unwrap_err()), "Invalid title length");
    assert_eq!(normalize_project_details(project()).unwrap().unwrap().author, "team-1");
}
