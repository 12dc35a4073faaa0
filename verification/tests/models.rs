use mcm_finder::ids::uuid_to_text;
use mcm_finder::modrinth::latest_release_date;
use mcm_finder::validation::parse_uuid;
use mcm_finder::models::{
    ModLoader, Provider, SearchQueryProfile, SearchSessionSummary, SortMode,
};
use mcm_finder::time::Timestamp;
use uuid::Uuid;

fn ts(secs: i64) -> Timestamp {
    Timestamp { secs, nanos: 0 }
}

#[test]
fn loaders_parse_ignoring_case() {
    assert_eq!(ModLoader::from_str("Fabric"), Some(ModLoader::Fabric));
    assert_eq!(ModLoader::from_str("FORGE"), Some(ModLoader::Forge));
    assert_eq!(ModLoader::from_str("quilt"), Some(ModLoader::Quilt));
    assert_eq!(ModLoader::from_str("NeoForge"), Some(ModLoader::NeoForge));
    assert_eq!(ModLoader::from_str(" fabric"), None);
    assert_eq!(ModLoader::from_str("rift"), None);
    assert_eq!(ModLoader::NeoForge.display_name(), "NeoForge");
}

#[test]
fn provider_names() {
    assert_eq!(Provider::Modrinth.as_str(), "modrinth");
    assert_eq!(Provider::CurseForge.as_str(), "curseforge");
    assert_eq!(Provider::GitHub.as_str(), "github");
    assert_eq!(Provider::McBaike.as_str(), "mcbaike");
}

#[test]
fn sort_mode_names_and_aliases() {
    assert_eq!(SortMode::default(), SortMode::Relevance);
    assert_eq!(SortMode::parse("  RELEVANCE "), Some(SortMode::Relevance));
    for alias in [
        "UpdateRecencyVersionAware",
        "update-recency",
        "update_recency",
        "update_recency_version_aware",
        "update-recency-version-aware",
    ] {
        assert_eq!(SortMode::parse(alias), Some(SortMode::UpdateRecencyVersionAware));
    }
    assert_eq!(SortMode::parse("downloads"), Some(SortMode::Downloads));
    for alias in ["created", "CreatedDate", "created-date", "created_date"] {
        assert_eq!(SortMode::parse(alias), Some(SortMode::CreatedDate));
    }
    assert_eq!(SortMode::parse("popular"), None);
    for m in [
        SortMode::Relevance,
        SortMode::UpdateRecencyVersionAware,
        SortMode::Downloads,
        SortMode::CreatedDate,
    ] {
        assert_eq!(SortMode::parse(m.as_str()), Some(m));
    }
}

#[test]
fn query_validation() {
    let q = SearchQueryProfile::new_with(1, ts(0), vec![], vec![Provider::Modrinth]);
    assert_eq!(
        q.validate().unwrap_err(),
        "Query must have at least one keyword or filter"
    );
    let q = SearchQueryProfile::new_with(1, ts(0), vec!["a".to_string()], vec![]);
    assert_eq!(q.validate().unwrap_err(), "At least one provider must be specified");
    let mut q = SearchQueryProfile::new_with(1, ts(0), vec![], vec![Provider::CurseForge]);
    q.filters.minecraft_version = Some("1.20".to_string());
    assert!(q.validate().is_ok());
    q.filters.minecraft_version = Some("1.20.x".to_string());
    assert_eq!(
        q.validate().unwrap_err(),
        "Invalid Minecraft version format: 1.20.x"
    );
    q.filters.minecraft_version = Some("1.4294967296".to_string());
    assert!(q.validate().is_err());
    q.filters.minecraft_version = Some("1.+4294967295".to_string());
    assert!(q.validate().is_ok());
    let mut q = SearchQueryProfile::new_with(1, ts(0), vec![], vec![Provider::Modrinth]);
    q.filters.categories = vec!["tech".to_string()];
    assert!(q.validate().is_ok());
}

#[test]
fn new_query_has_a_v4_id_and_defaults() {
    let q = SearchQueryProfile::new(vec!["x".to_string()], vec![Provider::Modrinth]);
    assert_eq!(Uuid::from_u128(q.id).get_version_num(), 4);
    assert_eq!(q.sort_mode, SortMode::Relevance);
    assert!(q.filters.loaders.is_empty());
    assert!(q.session_id.is_none());
}

#[test]
fn session_expires_thirty_days_after_creation() {
    let q = SearchQueryProfile::new_with(7, ts(100), vec!["x".to_string()], vec![Provider::Modrinth]);
    let now = Timestamp { secs: 1_700_000_000, nanos: 5 };
    let s = SearchSessionSummary::new_with(9, now, q);
    assert_eq!(s.id, 9);
    assert_eq!(s.created_at, now);
    assert_eq!(s.updated_at, now);
    assert_eq!(
        s.expires_at,
        Some(Timestamp { secs: 1_700_000_000 + 30 * 86400, nanos: 5 })
    );
    assert!(s.validate().is_ok());

    let fresh = SearchSessionSummary::new(s.original_query.clone());
    assert_eq!(Uuid::from_u128(fresh.id).get_version_num(), 4);
    assert!(fresh.validate().is_ok());
}

#[test]
fn session_validation_errors() {
    let q = SearchQueryProfile::new_with(7, ts(0), vec![], vec![]);
    let mut s = SearchSessionSummary::new_with(1, ts(50), q);
    s.updated_at = ts(49);
    assert_eq!(
        s.validate().unwrap_err(),
        "Created timestamp cannot be after updated timestamp"
    );
    s.updated_at = ts(50);
    s.expires_at = Some(ts(50));
    assert_eq!(s.validate().unwrap_err(), "Expiry must be after creation");
    s.expires_at = None;
    assert!(s.validate().is_ok());
}

#[test]
fn timestamps_compare_and_shift() {
    let a = Timestamp { secs: 5, nanos: 1 };
    let b = Timestamp { secs: 5, nanos: 2 };
    assert!(a.before(&b));
    assert!(!b.before(&a));
    assert!(!a.before(&a));
    assert_eq!(a.plus_days(2), Timestamp { secs: 5 + 2 * 86400, nanos: 1 });
    let q = SearchQueryProfile::new(vec!["x".to_string()], vec![Provider::Modrinth]);
    assert!(q.created_at.secs > 1_600_000_000);
}

#[test]
fn rfc3339_parses_to_utc() {
    assert_eq!(
        latest_release_date(&[(true, "2024-01-02T03:04:05Z".to_string())]),
        Some(Timestamp { secs: 1_704_164_645, nanos: 0 })
    );
    assert_eq!(
        latest_release_date(&[(true, "2024-01-02T04:04:05.5+01:00".to_string())]),
        Some(Timestamp { secs: 1_704_164_645, nanos: 500_000_000 })
    );
    assert_eq!(latest_release_date(&[(true, "yesterday".to_string())]), None);
}

#[test]
fn uuid_text_round_trip() {
    let u = Uuid::new_v4().as_u128();
    let text: String = uuid_to_text(u).into_iter().collect();
    assert_eq!(text, Uuid::from_u128(u).to_string());
    assert_eq!(parse_uuid(&text, "id").unwrap(), u);
    assert!(parse_uuid("xyz", "id").is_err());
    assert_eq!(
        uuid_to_text(0x67e5504410b1426f9247bb680e5fe0c8).into_iter().collect::<String>(),
        "67e55044-10b1-426f-9247-bb680e5fe0c8"
    );
}

#[test]
fn loader_display_names_read_back() {
    for l in [ModLoader::Fabric, ModLoader::Forge, ModLoader::Quilt, ModLoader::NeoForge] {
        assert_eq!(ModLoader::from_str(l.display_name()), Some(l));
    }
}

#[test]
fn sort_modes_read_back_padded_and_upper_case() {
    for m in [
        SortMode::Relevance,
        SortMode::UpdateRecencyVersionAware,
        SortMode::Downloads,
        SortMode::CreatedDate,
    ] {
        let padded = format!("  {}  ", m.as_str().to_uppercase());
        assert_eq!(SortMode::parse(&padded), Some(m));
        assert_eq!(SortMode::parse(&format!("\t{}\n", m.as_str().to_lowercase())), Some(m));
    }
}

#[test]
fn days_move_both_ways() {
    let t = Timestamp { secs: 1_000_000, nanos: 7 };
    assert_eq!(t.plus_days(-3), Timestamp { secs: 1_000_000 - 3 * 86400, nanos: 7 });
    assert_eq!(t.plus_days(40_000), Timestamp { secs: 1_000_000 + 40_000 * 86400, nanos: 7 });
}
