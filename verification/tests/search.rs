use mcm_finder::search::paginate_results;
use mcm_finder::search::{missing, parse_path_id, Missing};
use mcm_finder::models::{ModLoader, SearchFilters as ModelFilters, SortMode};
use mcm_finder::search::{
    applied_filters, failure_metadata_at, failure_to_metadata, internal_error, invalid_query, loaders_from_names,
    normalized_provider_scope, not_found, paginate, parse_sort_mode, prepare_search,
    provider_from_name, search_metadata, search_status, should_use_provider, sort_mode_hint,
    to_model_filters, trimmed_non_empty, FailureSeverity, ProviderFailure, ProviderScope,
    SearchFilters, SearchRequest,
};
use mcm_finder::models::Provider;
use uuid::Uuid;

fn strings(v: &[&str]) -> Vec<String> {
    v.iter().map(|s| s.to_string()).collect()
}

fn request(keywords: &[&str]) -> SearchRequest {
    SearchRequest {
        keywords: strings(keywords),
        filters: SearchFilters::default(),
        provider_scope: Vec::new(),
        sort_mode: None,
        offset: None,
        limit: None,
        force_refresh: false,
        search_id: None,
    }
}

#[test]
fn provider_scope_defaults_to_all_and_ignores_unknown() {
    assert_eq!(
        normalized_provider_scope(&[]),
        ProviderScope { modrinth: true, curseforge: true }
    );
    assert_eq!(
        normalized_provider_scope(&strings(&[" Modrinth ", "github"])),
        ProviderScope { modrinth: true, curseforge: false }
    );
    assert_eq!(
        normalized_provider_scope(&strings(&["CURSEFORGE"])),
        ProviderScope { modrinth: false, curseforge: true }
    );
    assert_eq!(
        normalized_provider_scope(&strings(&["github"])),
        ProviderScope { modrinth: false, curseforge: false }
    );
}

#[test]
fn should_use_provider_matches_exact_names() {
    let scope = ProviderScope { modrinth: true, curseforge: false };
    assert!(should_use_provider("modrinth", &scope));
    assert!(!should_use_provider("curseforge", &scope));
    assert!(!should_use_provider("Modrinth", &scope));
}

#[test]
fn provider_names_are_read_ignoring_case() {
    assert_eq!(provider_from_name("MODRINTH"), Some(Provider::Modrinth));
    assert_eq!(provider_from_name("CurseForge"), Some(Provider::CurseForge));
    assert_eq!(provider_from_name("github"), None);
}

#[test]
fn sort_modes_and_hints() {
    assert_eq!(parse_sort_mode(None), SortMode::Relevance);
    assert_eq!(parse_sort_mode(Some(" Downloads ")), SortMode::Downloads);
    assert_eq!(parse_sort_mode(Some("update-recency")), SortMode::UpdateRecencyVersionAware);
    assert_eq!(parse_sort_mode(Some("created_date")), SortMode::CreatedDate);
    assert_eq!(parse_sort_mode(Some("newest")), SortMode::Relevance);

    let mut r = request(&["x"]);
    assert_eq!(sort_mode_hint(&r), "Relevance");
    r.sort_mode = Some("  downloads ".to_string());
    assert_eq!(sort_mode_hint(&r), "downloads");
    r.sort_mode = Some("   ".to_string());
    assert_eq!(sort_mode_hint(&r), "Relevance");
}

#[test]
fn filters_become_model_filters() {
    let filters = SearchFilters {
        minecraft_version: Some(" 1.20.1 ".to_string()),
        loaders: strings(&["FABRIC", "unknown", "neoforge"]),
        categories: strings(&[" tech ", "  ", "magic"]),
        update_recency_window_days: Some(30),
        min_downloads: Some(1000),
        open_source_only: None,
    };
    let f = to_model_filters(&filters);
    assert_eq!(f.minecraft_version, Some("1.20.1".to_string()));
    assert_eq!(f.loaders, vec![ModLoader::Fabric, ModLoader::NeoForge]);
    assert_eq!(f.categories, strings(&["tech", "magic"]));
    assert_eq!(f.update_recency_window_days, Some(30));
    assert_eq!(f.min_downloads, Some(1000));
    assert!(!f.open_source_only);

    assert_eq!(
        loaders_from_names(&strings(&["Quilt", "forge"])),
        vec![ModLoader::Quilt, ModLoader::Forge]
    );
    assert_eq!(trimmed_non_empty(&strings(&["", " a "])), strings(&["a"]));
}

#[test]
fn prepare_search_accepts_a_valid_request() {
    let mut r = request(&["  sodium ", "\n", "lithium"]);
    r.provider_scope = strings(&["curseforge", "modrinth"]);
    r.sort_mode = Some("downloads".to_string());
    let id = Uuid::new_v4();
    r.search_id = Some(id.to_string());
    r.filters.loaders = strings(&[" fabric "]);
    r.filters.minecraft_version = Some("1.20.1".to_string());
    let p = prepare_search(&r).unwrap();
    assert_eq!(p.search_id, id.as_u128());
    assert_eq!(p.keywords, strings(&["sodium", "lithium"]));
    assert_eq!(p.query, "sodium lithium");
    assert_eq!(p.providers_queried, strings(&["modrinth", "curseforge"]));
    assert_eq!(p.sort_mode, SortMode::Downloads);
    assert_eq!(p.sort_hint, "downloads");
    assert_eq!(p.filters.loaders, strings(&["fabric"]));
    assert_eq!(p.filters.minecraft_version, Some("1.20.1".to_string()));
}

#[test]
fn prepare_search_makes_a_fresh_v4_id() {
    let p = prepare_search(&request(&["a"])).unwrap();
    let id = Uuid::from_u128(p.search_id);
    assert_eq!(id.get_version_num(), 4);
}

#[test]
fn prepare_search_reports_the_first_error() {
    let mut r = request(&[]);
    r.search_id = Some("nope".to_string());
    let e = prepare_search(&r).unwrap_err();
    assert_eq!(e.status, 400);
    assert_eq!(e.body.error.code, "INVALID_QUERY");
    assert_eq!(
        e.body.error.message,
        "search_id must be a valid UUID (xxxxxxxx-xxxx-xxxx-xxxx-xxxxxxxxxxxx)"
    );

    let e = prepare_search(&request(&[])).unwrap_err();
    assert_eq!(
        e.body.error.message,
        "keywords must contain between 1 and 10 non-empty values"
    );

    let mut r = request(&["a"]);
    r.filters.loaders = strings(&["a"; 9]);
    assert_eq!(
        prepare_search(&r).unwrap_err().body.error.message,
        "filters.loaders supports at most 8 values"
    );

    let mut r = request(&["a"]);
    r.filters.categories = vec!["c".repeat(65)];
    assert_eq!(
        prepare_search(&r).unwrap_err().body.error.message,
        "filters.categories values must be 64 characters or fewer"
    );

    let mut r = request(&["a"]);
    r.provider_scope = strings(&["a", "b", "c", "d", "e"]);
    assert_eq!(
        prepare_search(&r).unwrap_err().body.error.message,
        "provider_scope supports at most 4 values"
    );

    let mut r = request(&["a"]);
    r.filters.minecraft_version = Some("1.20-rc1".to_string());
    assert_eq!(
        prepare_search(&r).unwrap_err().body.error.message,
        "minecraft_version must only contain digits, dots, optional x-range, or + suffix"
    );

    let mut r = request(&["a"]);
    r.provider_scope = strings(&["github"]);
    assert_eq!(
        prepare_search(&r).unwrap_err().body.error.message,
        "provider_scope must include at least one of: modrinth, curseforge"
    );
}

#[test]
fn pagination_defaults_and_clamps() {
    let p = paginate(120, None, None);
    assert_eq!((p.offset, p.limit, p.returned, p.total, p.has_more), (0, 50, 50, 120, true));
    let p = paginate(120, Some(100), Some(50));
    assert_eq!((p.offset, p.limit, p.returned, p.has_more), (100, 50, 20, false));
    let p = paginate(10, Some(20), Some(0));
    assert_eq!((p.offset, p.limit, p.returned, p.has_more), (10, 1, 0, false));
    let p = paginate(500, Some(0), Some(1000));
    assert_eq!((p.limit, p.returned, p.has_more), (100, 100, true));
    let p = paginate(0, None, None);
    assert_eq!((p.offset, p.returned, p.has_more), (0, 0, false));
}

#[test]
fn consecutive_pages_tile_the_results() {
    let total = 237;
    let mut offset = 0;
    let mut seen = 0;
    loop {
        let p = paginate(total, Some(offset), Some(40));
        assert!(p.returned <= p.limit);
        seen += p.returned;
        if !p.has_more {
            assert_eq!(p.offset + p.returned, total);
            break;
        }
        assert_eq!(p.returned, 40);
        offset = p.offset + p.returned;
    }
    assert_eq!(seen, total);
}

#[test]
fn status_is_503_only_when_nothing_remains_after_a_failure() {
    assert_eq!(search_status(0, 1), 503);
    assert_eq!(search_status(0, 0), 200);
    assert_eq!(search_status(3, 2), 200);
}

#[test]
fn failures_are_labelled() {
    let cases = [
        (FailureSeverity::Timeout, "warning", "timeout"),
        (FailureSeverity::CircuitOpen, "warning", "circuit_open"),
        (FailureSeverity::RateLimited, "warning", "rate_limited"),
        (FailureSeverity::Unavailable, "error", "provider_unavailable"),
        (FailureSeverity::InvalidResponse, "error", "invalid_response"),
    ];
    for (severity, label, reason) in cases {
        let f = ProviderFailure {
            provider: "modrinth".to_string(),
            error: "boom".to_string(),
            severity,
        };
        let m = failure_metadata_at(&f, 1_700_000_000);
        assert_eq!(m.provider, "modrinth");
        assert_eq!(m.error, "boom");
        assert_eq!(m.severity, label);
        assert_eq!(m.reason, reason);
        assert_eq!(m.timestamp, 1_700_000_000);
    }
}

#[test]
fn metadata_reports_degradation_and_filters() {
    let filters = ModelFilters {
        minecraft_version: Some("1.20".to_string()),
        loaders: vec![ModLoader::NeoForge, ModLoader::Fabric],
        categories: strings(&["tech"]),
        update_recency_window_days: None,
        min_downloads: Some(5),
        open_source_only: true,
    };
    let applied = applied_filters(&filters);
    assert_eq!(applied.loaders, strings(&["NeoForge", "Fabric"]));
    assert_eq!(applied.categories, strings(&["tech"]));
    assert!(applied.open_source_only);

    let page = paginate(3, None, None);
    let failure = failure_to_metadata(&ProviderFailure {
        provider: "curseforge".to_string(),
        error: "down".to_string(),
        severity: FailureSeverity::Unavailable,
    });
    assert_eq!(failure.severity, "error");
    assert!(failure.timestamp > 1_600_000_000);
    let m = search_metadata(
        12,
        strings(&["modrinth", "curseforge"]),
        strings(&["modrinth"]),
        vec![failure],
        SortMode::UpdateRecencyVersionAware,
        5,
        3,
        page,
        &filters,
    );
    assert_eq!(
        m.degradation_reason,
        Some("One or more providers failed; showing available results".to_string())
    );
    assert_eq!(m.sort_mode, "UpdateRecencyVersionAware");
    assert_eq!(m.pagination, page);
    assert_eq!(m.filters_applied.minecraft_version, Some("1.20".to_string()));

    let m = search_metadata(
        0,
        Vec::new(),
        Vec::new(),
        Vec::new(),
        SortMode::Relevance,
        0,
        0,
        page,
        &filters,
    );
    assert_eq!(m.degradation_reason, None);
    assert_eq!(m.sort_mode, "Relevance");
}

#[test]
fn api_errors_carry_status_and_code() {
    let e = invalid_query("bad".to_string());
    assert_eq!((e.status, e.body.error.code.as_str()), (400, "INVALID_QUERY"));
    let e = internal_error("oops".to_string());
    assert_eq!((e.status, e.body.error.code.as_str()), (500, "INTERNAL_ERROR"));
    let e = not_found("gone".to_string());
    assert_eq!((e.status, e.body.error.message.as_str()), (404, "gone"));
}

#[test]
fn path_ids_and_missing_resources() {
    let id = Uuid::new_v4();
    assert_eq!(parse_path_id(&id.to_string(), "mod_id").unwrap(), id.as_u128());
    let e = parse_path_id("zzz", "session_id").unwrap_err();
    assert_eq!(e.status, 400);
    assert_eq!(
        e.body.error.message,
        "session_id must be a valid UUID (xxxxxxxx-xxxx-xxxx-xxxx-xxxxxxxxxxxx)"
    );
    let e = missing(Missing::ModProfile);
    assert_eq!((e.status, e.body.error.code.as_str()), (404, "NOT_FOUND"));
    assert_eq!(
        e.body.error.message,
        "Mod profile not found. Run a search first to populate the profile cache."
    );
    assert_eq!(
        missing(Missing::SearchProgress).body.error.message,
        "Search progress not found. Ensure search_id was returned by /api/v1/search."
    );
    assert_eq!(
        missing(Missing::Session).body.error.message,
        "Session not found. It may have expired or been deleted."
    );
}

#[test]
fn pages_carry_their_results() {
    let results: Vec<u32> = (0..120).collect();
    let (page, meta) = paginate_results(results.clone(), Some(100), Some(50));
    assert_eq!(page, (100..120).collect::<Vec<u32>>());
    assert_eq!((meta.offset, meta.returned, meta.total, meta.has_more), (100, 20, 120, false));
    let (first, m1) = paginate_results(results.clone(), None, Some(40));
    let (second, m2) = paginate_results(results.clone(), Some(m1.offset + m1.returned), Some(40));
    assert_eq!(first, (0..40).collect::<Vec<u32>>());
    assert_eq!(second, (40..80).collect::<Vec<u32>>());
    assert!(m2.has_more);
    let (empty, m3) = paginate_results(results, Some(500), None);
    assert!(empty.is_empty());
    assert_eq!((m3.offset, m3.returned), (120, 0));
}
