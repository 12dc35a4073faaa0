use mcm_finder::server::{server_address, wants_tls};
use mcm_finder::digest::to_hex;
use mcm_finder::modrinth::search_cache_key;
use mcm_finder::health::health_report;
use mcm_finder::models::{CompatibilityStatus, MaintenanceStatus};
use mcm_finder::order::sort_strings;
use mcm_finder::report::{
    all_providers_failed, check_profile, check_provider_record, compatibility_text,
    degradation_reason, is_warning_severity, maintenance_text,
};
use mcm_finder::secrets::{load_curseforge_api_key, SecretsConfig};
use mcm_finder::text::{
    join_strings, join_with_spaces, parse_unsigned, split_chars, trim_chars,
};
use mcm_finder::time::Timestamp;
use sha2::{Digest, Sha256};

fn strings(v: &[&str]) -> Vec<String> {
    v.iter().map(|s| s.to_string()).collect()
}

fn chars(s: &str) -> Vec<char> {
    s.chars().collect()
}

#[test]
fn sha256_and_hex() {
    let d = Sha256::digest(b"abc").to_vec();
    let h = to_hex(&d);
    assert_eq!(h, "ba7816bf8f01cfea414140de5dae2223b00361a396177a9cb410ff61f20015ad");
    assert_eq!(to_hex(&[0x00, 0x0f, 0xa0, 0xff]), "000fa0ff");
    // The query is lower-cased with full Unicode case mapping before it is hashed.
    let mut expected = Sha256::new();
    expected.update("modrinth");
    expected.update("àb-c");
    expected.update("*");
    assert_eq!(search_cache_key(" ÀB-c ", None), to_hex(&expected.finalize().to_vec()));
}

#[test]
fn strings_sort_by_code_point() {
    assert_eq!(
        sort_strings(strings(&["b", "a", "B", "ab", "", "a"])),
        strings(&["", "B", "a", "a", "ab", "b"])
    );
    let mut v = strings(&["zeta", "alpha", "Émile", "beta"]);
    let sorted = sort_strings(v.clone());
    v.sort();
    assert_eq!(sorted, v);
}

#[test]
fn text_helpers() {
    assert_eq!(trim_chars(&chars("\u{2003} a b \n")), chars("a b"));
    assert_eq!(parse_unsigned(&chars("+42"), 100), Some(42));
    assert_eq!(parse_unsigned(&chars("101"), 100), None);
    assert_eq!(parse_unsigned(&chars("-1"), 100), None);
    assert_eq!(parse_unsigned(&chars(""), 100), None);
    assert_eq!(parse_unsigned(&chars("+"), 100), None);
    assert_eq!(
        split_chars(&chars("a..b"), '.'),
        vec![chars("a"), vec![], chars("b")]
    );
    assert_eq!(split_chars(&chars(""), '.'), vec![Vec::<char>::new()]);
    assert_eq!(join_with_spaces(&strings(&["a", "b", "c"])), "a b c");
    assert_eq!(join_strings(&strings(&["x", "y"]), ','), "x,y");
    assert_eq!(join_strings(&[], ','), "");
}

#[test]
fn health_reports() {
    let h = health_report(true, "t".to_string(), 5, "1.0".to_string());
    assert_eq!(h.status, "healthy");
    assert!(h.message.is_none());
    assert_eq!(h.providers[0].0, "Modrinth");
    assert_eq!(h.providers[1].1.status, "operational");
    let h = health_report(false, "t".to_string(), 5, "1.0".to_string());
    assert_eq!(h.status, "degraded");
    assert_eq!(
        h.message,
        Some("CurseForge API key missing. Searches run in degraded mode.".to_string())
    );
    assert_eq!(h.providers[1].0, "CurseForge");
    assert_eq!(h.providers[1].1.status, "degraded");
    assert_eq!(h.providers[1].1.reason, Some("missing_api_key".to_string()));
    assert_eq!(h.uptime_seconds, 5);
}

#[test]
fn secrets_are_trimmed() {
    assert_eq!(load_curseforge_api_key(Some("  key ")), Some("key".to_string()));
    assert_eq!(load_curseforge_api_key(Some("   ")), None);
    assert_eq!(load_curseforge_api_key(None), None);
    assert_eq!(SecretsConfig::from_env(Some("k")).curseforge_api_key, Some("k".to_string()));
}

#[test]
fn profile_texts() {
    assert_eq!(compatibility_text(&CompatibilityStatus::FullyCompatible), "Fully compatible");
    assert_eq!(
        compatibility_text(&CompatibilityStatus::PartiallyCompatible {
            issues: strings(&["a", "b"])
        }),
        "Partially compatible: a; b"
    );
    assert_eq!(
        compatibility_text(&CompatibilityStatus::Incompatible { reasons: strings(&["x"]) }),
        "Incompatible: x"
    );
    assert_eq!(
        maintenance_text(&MaintenanceStatus::Maintenance { last_update_days: 90 }),
        "Maintenance mode (last update 90 days ago)"
    );
    assert_eq!(maintenance_text(&MaintenanceStatus::ActivelyMaintained), "Actively maintained");
    assert_eq!(maintenance_text(&MaintenanceStatus::Abandoned), "Likely abandoned");
    assert_eq!(maintenance_text(&MaintenanceStatus::Unknown), "Unknown");
}

#[test]
fn failure_reporting_helpers() {
    assert!(is_warning_severity("WARNING"));
    assert!(!is_warning_severity("error"));
    assert!(all_providers_failed(0, 2));
    assert!(!all_providers_failed(1, 2));
    assert!(!all_providers_failed(0, 0));
    assert_eq!(degradation_reason(0), None);
    assert_eq!(
        degradation_reason(1),
        Some("One or more providers failed; showing available results".to_string())
    );
}

#[test]
fn record_and_profile_checks() {
    let now = Timestamp { secs: 100, nanos: 0 };
    assert!(check_provider_record("n", "s", true, now, now).is_ok());
    assert_eq!(
        check_provider_record("", "s", true, now, now).unwrap_err(),
        "Name must be non-empty and ≤ 100 characters"
    );
    assert_eq!(
        check_provider_record("n", &"s".repeat(501), true, now, now).unwrap_err(),
        "Summary must be ≤ 500 characters"
    );
    assert_eq!(
        check_provider_record("n", "s", false, now, now).unwrap_err(),
        "Relevance score must be in range [0.0, 1.0]"
    );
    assert_eq!(
        check_provider_record("n", "s", true, Timestamp { secs: 101, nanos: 0 }, now).unwrap_err(),
        "Fetched timestamp cannot be in the future"
    );
    assert!(check_profile(1, true, true).is_ok());
    assert_eq!(
        check_profile(0, true, true).unwrap_err(),
        "ConsolidatedModProfile must have at least one provider record"
    );
    assert_eq!(
        check_profile(1, false, true).unwrap_err(),
        "Composite relevance must be in range [0.0, 1.0]"
    );
    assert_eq!(
        check_profile(1, true, false).unwrap_err(),
        "Confidence score must be in range [0.0, 1.0]"
    );
}

#[test]
fn server_address_and_tls() {
    assert_eq!(server_address(None), "127.0.0.1:3000");
    assert_eq!(server_address(Some("0.0.0.0")), "0.0.0.0:3000");
    assert!(wants_tls(&Some("c".to_string()), &Some("k".to_string())));
    assert!(!wants_tls(&Some("c".to_string()), &None));
    assert!(!wants_tls(&None, &None));
}
