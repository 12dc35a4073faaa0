use mcm_finder::sessions::{note_text, store_failure, StoreFailure};
use mcm_finder::models::{Provider, SearchQueryProfile};
use mcm_finder::sessions::{
    build_saved_session, prepare_list_sessions, shareable_link, validate_save_session_request,
    ListSessionsQuery, SaveSessionRequest, SearchSnapshot,
};
use mcm_finder::time::Timestamp;
use uuid::Uuid;

fn request() -> (SaveSessionRequest, Uuid, Uuid, Uuid) {
    let q = Uuid::new_v4();
    let a = Uuid::new_v4();
    let b = Uuid::new_v4();
    let r = SaveSessionRequest {
        query_id: q.to_string(),
        query_description: Some("  my   picks ".to_string()),
        shortlisted_mod_ids: vec![a.to_string(), b.to_string()],
        comparison_notes: vec![(a.to_string(), " fast ".to_string())],
        user_identifier: None,
    };
    (r, q, a, b)
}

fn message(r: &SaveSessionRequest) -> String {
    let e = validate_save_session_request(r).unwrap_err();
    assert_eq!(e.status, 400);
    assert_eq!(e.body.error.code, "INVALID_QUERY");
    e.body.error.message
}

#[test]
fn save_request_is_validated() {
    let (r, q, a, b) = request();
    let v = validate_save_session_request(&r).unwrap();
    assert_eq!(v.query_id, q.as_u128());
    assert_eq!(v.shortlisted_mods, vec![a.as_u128(), b.as_u128()]);
    assert_eq!(v.comparison_notes, vec![(a.as_u128(), "fast".to_string())]);
    assert_eq!(v.query_description, Some("my picks".to_string()));
    assert_eq!(v.user_identifier, None);
}

#[test]
fn save_request_errors_in_order() {
    let (mut r, _, a, _) = request();
    r.shortlisted_mod_ids.clear();
    r.query_id = "bad".to_string();
    assert_eq!(message(&r), "shortlisted_mod_ids must include at least one UUID");

    let (mut r, _, _, _) = request();
    r.query_id = "bad".to_string();
    assert_eq!(
        message(&r),
        "query_id must be a valid UUID (xxxxxxxx-xxxx-xxxx-xxxx-xxxxxxxxxxxx)"
    );

    let (mut r, _, _, _) = request();
    r.shortlisted_mod_ids.push("nope".to_string());
    assert_eq!(
        message(&r),
        "shortlisted_mod_ids[2] must be a valid UUID (xxxxxxxx-xxxx-xxxx-xxxx-xxxxxxxxxxxx)"
    );

    let (mut r, _, _, _) = request();
    r.shortlisted_mod_ids = vec![Uuid::new_v4().to_string(); 101];
    assert_eq!(message(&r), "shortlisted_mod_ids supports at most 100 values");

    let (mut r, _, _, _) = request();
    r.comparison_notes.push(("k".to_string(), "v".to_string()));
    assert_eq!(
        message(&r),
        "comparison_notes key must be a valid UUID (xxxxxxxx-xxxx-xxxx-xxxx-xxxxxxxxxxxx)"
    );

    let (mut r, _, _, _) = request();
    r.comparison_notes = vec![(a.to_string(), "n".repeat(2001))];
    assert_eq!(
        message(&r),
        format!("comparison note for {} exceeds 2000 characters", a)
    );

    let (mut r, _, _, _) = request();
    r.query_description = Some("d".repeat(201));
    assert_eq!(message(&r), "query_description must be 200 characters or fewer");

    let (mut r, _, _, _) = request();
    r.user_identifier = Some("u".repeat(129));
    assert_eq!(message(&r), "user_identifier must be 128 characters or fewer");
}

#[test]
fn saved_session_from_a_snapshot() {
    let (r, q, _, _) = request();
    let v = validate_save_session_request(&r).unwrap();
    let query = SearchQueryProfile::new_with(
        q.as_u128(),
        Timestamp { secs: 10, nanos: 0 },
        vec!["sodium".to_string()],
        vec![Provider::Modrinth, Provider::CurseForge],
    );
    let snapshot = SearchSnapshot {
        query_id: q.as_u128(),
        query: query.clone(),
        result_ids: vec![1, 2, 3],
        search_duration_ms: 250,
        providers_used: vec![Provider::CurseForge],
        total_candidates_found: 42,
    };
    let updated = Timestamp { secs: 1_800_000_000, nanos: 0 };
    let s = build_saved_session(v.clone(), Some(snapshot), updated);
    assert_eq!(Uuid::from_u128(s.id).get_version_num(), 4);
    assert_eq!(s.updated_at, updated);
    assert_eq!(s.original_query.id, q.as_u128());
    assert_eq!(s.search_duration_ms, 250);
    assert_eq!(s.providers_used, vec![Provider::CurseForge]);
    assert_eq!(s.total_candidates_found, 42);
    assert_eq!(s.shortlisted_mods, v.shortlisted_mods);
    assert_eq!(s.comparison_notes, v.comparison_notes);
    assert_eq!(
        s.shareable_link,
        Some(format!("/session/{}", Uuid::from_u128(s.id)))
    );
    assert_eq!(
        s.expires_at,
        Some(Timestamp { secs: s.created_at.secs + 30 * 86400, nanos: s.created_at.nanos })
    );
}

#[test]
fn saved_session_without_a_snapshot() {
    let (r, _, _, _) = request();
    let v = validate_save_session_request(&r).unwrap();
    let s = build_saved_session(v, None, Timestamp { secs: 5, nanos: 0 });
    assert_eq!(s.original_query.keywords, vec!["saved-session".to_string()]);
    assert_eq!(s.original_query.provider_scope, vec![Provider::Modrinth]);
    assert_eq!(s.providers_used, vec![Provider::Modrinth]);
    assert_eq!(s.search_duration_ms, 0);
    assert_eq!(s.total_candidates_found, 2);
}

#[test]
fn list_request_limits() {
    let p = prepare_list_sessions(&ListSessionsQuery { user_identifier: None, limit: None }).unwrap();
    assert_eq!(p.limit, 20);
    let p = prepare_list_sessions(&ListSessionsQuery {
        user_identifier: Some(" me ".to_string()),
        limit: Some(0),
    })
    .unwrap();
    assert_eq!((p.limit, p.user_identifier), (1, Some("me".to_string())));
    let p = prepare_list_sessions(&ListSessionsQuery { user_identifier: None, limit: Some(500) })
        .unwrap();
    assert_eq!(p.limit, 100);
    let e = prepare_list_sessions(&ListSessionsQuery {
        user_identifier: Some("u".repeat(129)),
        limit: None,
    })
    .unwrap_err();
    assert_eq!(e.body.error.message, "user_identifier must be 128 characters or fewer");
}

#[test]
fn shareable_links_use_the_hyphenated_id() {
    let id = 0x67e5504410b1426f9247bb680e5fe0c8u128;
    assert_eq!(shareable_link(id), "/session/67e55044-10b1-426f-9247-bb680e5fe0c8");
}

#[test]
fn session_store_errors_and_notes() {
    let e = store_failure(StoreFailure::Persist);
    assert_eq!(e.status, 500);
    assert_eq!(e.body.error.code, "INTERNAL_ERROR");
    assert_eq!(e.body.error.message, "Failed to persist session. Please retry.");
    assert_eq!(
        store_failure(StoreFailure::Retrieve).body.error.message,
        "Failed to retrieve session. Please retry."
    );
    assert_eq!(
        store_failure(StoreFailure::List).body.error.message,
        "Failed to list sessions. Please retry."
    );
    let notes = vec![(1u128, "first".to_string()), (2, "other".to_string()), (1, "later".to_string())];
    assert_eq!(note_text(&notes, 1), "later");
    assert_eq!(note_text(&notes, 2), "other");
    assert_eq!(note_text(&notes, 3), "No note");
    assert_eq!(note_text(&[], 3), "No note");
}

#[test]
fn shareable_link_ids_read_back() {
    let id = Uuid::new_v4().as_u128();
    let link = shareable_link(id);
    let text = link.strip_prefix("/session/").unwrap();
    assert_eq!(mcm_finder::search::parse_path_id(text, "session_id").unwrap(), id);
}

#[test]
fn placeholder_query_has_default_filters_and_sort() {
    let (r, _, _, _) = request();
    let v = validate_save_session_request(&r).unwrap();
    let s = build_saved_session(v, None, Timestamp { secs: 5, nanos: 0 });
    assert!(s.original_query.filters.loaders.is_empty());
    assert!(s.original_query.filters.minecraft_version.is_none());
    assert!(!s.original_query.filters.open_source_only);
    assert_eq!(s.original_query.sort_mode, mcm_finder::models::SortMode::Relevance);
}
