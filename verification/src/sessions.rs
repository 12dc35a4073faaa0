//! The session endpoints: validation of save and list requests, and the assembly of a saved
//! session from the search it came from.
use vstd::prelude::*;
use crate::text::{chars_of, push_str, string_from_chars, byte_len, sanitize};
use crate::validation::{
    views, parse_uuid, parse_uuid_list, validate_comparison_notes, sanitize_optional_text,
    uuid_list_error, notes_error, optional_text_error, accepted_text, pair_views, keyed_views,
    kept_note, invalid_uuid_message, note_on, notes_map,
};
use crate::ids::{uuid_from_text, uuid_text, uuid_to_text, is_v4, new_uuid_v4};
use crate::models::{Provider, SearchQueryProfile, SearchSessionSummary, SESSION_LIFETIME_DAYS};
use crate::search::{ApiError, invalid_query, internal_error, clamp, opt_view};
use crate::time::{Timestamp, in_calendar_range, utc_now};

verus! {

broadcast use vstd::string::group_string_axioms;

/// A request to save a session.
#[derive(Debug, Clone)]
pub struct SaveSessionRequest {
    pub query_id: String,
    pub query_description: Option<String>,
    pub shortlisted_mod_ids: Vec<String>,
    /// Notes keyed by mod id text, in the order they were read.
    pub comparison_notes: Vec<(String, String)>,
    pub user_identifier: Option<String>,
}

/// A request to list saved sessions.
#[derive(Debug, Clone)]
pub struct ListSessionsQuery {
    pub user_identifier: Option<String>,
    pub limit: Option<usize>,
}

/// The parts of a save request once validated.
#[derive(Debug, Clone)]
pub struct ValidatedSaveSession {
    pub query_id: u128,
    pub shortlisted_mods: Vec<u128>,
    pub comparison_notes: Vec<(u128, String)>,
    pub query_description: Option<String>,
    pub user_identifier: Option<String>,
}

/// Message for a save request without shortlisted mods.
pub open spec fn no_shortlist_message() -> Seq<char> {
    "shortlisted_mod_ids must include at least one UUID"@
}

/// The message of the first check that a save request fails, in the endpoint's order; `None`
/// where it is valid.
pub open spec fn save_request_error(r: SaveSessionRequest) -> Option<Seq<char>> {
    let ids = views(r.shortlisted_mod_ids@);
    let notes = pair_views(r.comparison_notes@);
    if ids.len() == 0 {
        Some(no_shortlist_message())
    } else if uuid_from_text(r.query_id@) is None {
        Some(invalid_uuid_message("query_id"@))
    } else if uuid_list_error(ids, "shortlisted_mod_ids"@, 100) is Some {
        uuid_list_error(ids, "shortlisted_mod_ids"@, 100)
    } else if notes_error(notes, 100, 2000) is Some {
        notes_error(notes, 100, 2000)
    } else if optional_text_error(opt_view(r.query_description), "query_description"@, 200) is Some {
        optional_text_error(opt_view(r.query_description), "query_description"@, 200)
    } else if optional_text_error(opt_view(r.user_identifier), "user_identifier"@, 128) is Some {
        optional_text_error(opt_view(r.user_identifier), "user_identifier"@, 128)
    } else {
        None
    }
}

/// A save request is refused for its shortlist exactly when the shortlist is empty, and a request
/// is accepted exactly when its query id is a UUID, it shortlists 1 to 100 mods that are all UUIDs,
/// it has at most 100 notes, each keyed by a UUID and of at most 2000 bytes once sanitized, and its
/// sanitized description and user identifier fit in 200 and 128 bytes.
pub proof fn law_save_request_acceptance(r: SaveSessionRequest)
    ensures
        r.shortlisted_mod_ids@.len() == 0 ==> save_request_error(r) == Some(no_shortlist_message()),
        save_request_error(r) is None <==> {
            &&& 1 <= r.shortlisted_mod_ids@.len() <= 100
            &&& uuid_from_text(r.query_id@) is Some
            &&& forall|i: int|
                0 <= i < r.shortlisted_mod_ids@.len() ==> (#[trigger] uuid_from_text(
                    r.shortlisted_mod_ids@[i]@,
                )) is Some
            &&& r.comparison_notes@.len() <= 100
            &&& forall|i: int|
                0 <= i < r.comparison_notes@.len() ==> uuid_from_text(
                    (#[trigger] r.comparison_notes@[i]).0@,
                ) is Some && byte_len(sanitize(r.comparison_notes@[i].1@)) <= 2000
            &&& (r.query_description matches Some(d) ==> byte_len(sanitize(d@)) <= 200)
            &&& (r.user_identifier matches Some(u) ==> byte_len(sanitize(u@)) <= 128)
        },
{
    let ids = views(r.shortlisted_mod_ids@);
    let notes = pair_views(r.comparison_notes@);
    assert(byte_len(Seq::<char>::empty()) == 0) by {
        assert(vstd::utf8::encode_utf8(Seq::<char>::empty()) =~= Seq::<u8>::empty());
    }
    let ids_ok = forall|i: int|
        0 <= i < r.shortlisted_mod_ids@.len() ==> (#[trigger] uuid_from_text(
            r.shortlisted_mod_ids@[i]@,
        )) is Some;
    let notes_ok = forall|i: int|
        0 <= i < r.comparison_notes@.len() ==> uuid_from_text(
            (#[trigger] r.comparison_notes@[i]).0@,
        ) is Some && byte_len(sanitize(r.comparison_notes@[i].1@)) <= 2000;
    assert(ids_ok <==> crate::validation::all_uuids(ids)) by {
        if ids_ok {
            assert forall|i: int| 0 <= i < ids.len() implies (#[trigger] uuid_from_text(
                ids[i],
            )) is Some by {
                assert(ids[i] == r.shortlisted_mod_ids@[i]@);
            }
        }
        if crate::validation::all_uuids(ids) {
            assert forall|i: int| 0 <= i < r.shortlisted_mod_ids@.len() implies (
            #[trigger] uuid_from_text(r.shortlisted_mod_ids@[i]@)) is Some by {
                assert(ids[i] == r.shortlisted_mod_ids@[i]@);
                assert(uuid_from_text(ids[i]) is Some);
            }
        }
    }
    let all_notes = forall|i: int|
        0 <= i < notes.len() ==> crate::validation::note_ok(#[trigger] notes[i], 2000);
    assert(notes_ok <==> all_notes) by {
        if notes_ok {
            assert forall|i: int| 0 <= i < notes.len() implies crate::validation::note_ok(
                #[trigger] notes[i],
                2000,
            ) by {
                assert(notes[i] == (r.comparison_notes@[i].0@, r.comparison_notes@[i].1@));
            }
        }
        if all_notes {
            assert forall|i: int| 0 <= i < r.comparison_notes@.len() implies uuid_from_text(
                (#[trigger] r.comparison_notes@[i]).0@,
            ) is Some && byte_len(sanitize(r.comparison_notes@[i].1@)) <= 2000 by {
                assert(notes[i] == (r.comparison_notes@[i].0@, r.comparison_notes@[i].1@));
                assert(crate::validation::note_ok(notes[i], 2000));
            }
        }
    }
    assert(notes_error(notes, 100, 2000) is None <==> (notes.len() <= 100 && all_notes));
}

/// Validates a save request as the endpoint does: at least one shortlisted id; the query id; at
/// most 100 shortlisted UUIDs; at most 100 notes keyed by UUID of at most 2000 bytes each; a
/// description of at most 200 bytes and a user identifier of at most 128 bytes, both sanitized.
pub fn validate_save_session_request(request: &SaveSessionRequest) -> (r: Result<
    ValidatedSaveSession,
    ApiError,
>)
    ensures
        r is Ok <==> save_request_error(*request) is None,
        r matches Err(e) ==> e.is(400, "INVALID_QUERY"@, save_request_error(*request)->0),
        r matches Ok(v) ==> {
            &&& uuid_from_text(request.query_id@) == Some(v.query_id)
            &&& v.shortlisted_mods@.len() == request.shortlisted_mod_ids@.len()
            &&& forall|i: int|
                0 <= i < v.shortlisted_mods@.len() ==> uuid_from_text(
                    #[trigger] views(request.shortlisted_mod_ids@)[i],
                ) == Some(v.shortlisted_mods@[i])
            &&& keyed_views(v.comparison_notes@) == notes_map(
                pair_views(request.comparison_notes@).filter_map(kept_note()),
            )
            &&& opt_view(v.query_description) == accepted_text(opt_view(request.query_description))
            &&& opt_view(v.user_identifier) == accepted_text(opt_view(request.user_identifier))
        },
{
    if request.shortlisted_mod_ids.len() == 0 {
        return Err(invalid_query("shortlisted_mod_ids must include at least one UUID".to_string()));
    }
    let query_id = match parse_uuid(request.query_id.as_str(), "query_id") {
        Ok(u) => u,
        Err(m) => {
            return Err(invalid_query(m));
        },
    };
    let shortlisted_mods = match parse_uuid_list(
        request.shortlisted_mod_ids.as_slice(),
        "shortlisted_mod_ids",
        100,
    ) {
        Ok(v) => v,
        Err(m) => {
            return Err(invalid_query(m));
        },
    };
    if shortlisted_mods.len() == 0 {
        return Err(
            invalid_query("shortlisted_mod_ids must include at least one valid UUID".to_string()),
        );
    }
    let comparison_notes = match validate_comparison_notes(
        request.comparison_notes.as_slice(),
        100,
        2000,
    ) {
        Ok(v) => v,
        Err(m) => {
            return Err(invalid_query(m));
        },
    };
    let description_in: Option<&str> = match &request.query_description {
        Some(d) => Some(d.as_str()),
        None => None,
    };
    let query_description = match sanitize_optional_text(description_in, "query_description", 200) {
        Ok(v) => v,
        Err(m) => {
            return Err(invalid_query(m));
        },
    };
    let user_in: Option<&str> = match &request.user_identifier {
        Some(d) => Some(d.as_str()),
        None => None,
    };
    let user_identifier = match sanitize_optional_text(user_in, "user_identifier", 128) {
        Ok(v) => v,
        Err(m) => {
            return Err(invalid_query(m));
        },
    };
    Ok(ValidatedSaveSession {
        query_id,
        shortlisted_mods,
        comparison_notes,
        query_description,
        user_identifier,
    })
}

/// A session store operation that failed.
#[derive(Debug, Clone, Copy, PartialEq, Eq, Structural)]
pub enum StoreFailure {
    Persist,
    Retrieve,
    List,
}

/// The message sent where the session store fails.
pub open spec fn store_failure_message(f: StoreFailure) -> Seq<char> {
    match f {
        StoreFailure::Persist => "Failed to persist session. Please retry."@,
        StoreFailure::Retrieve => "Failed to retrieve session. Please retry."@,
        StoreFailure::List => "Failed to list sessions. Please retry."@,
    }
}

/// The `500 INTERNAL_ERROR` error for a failed session store operation.
pub fn store_failure(f: StoreFailure) -> (e: ApiError)
    ensures
        e.is(500, "INTERNAL_ERROR"@, store_failure_message(f)),
{
    let message = match f {
        StoreFailure::Persist => "Failed to persist session. Please retry.",
        StoreFailure::Retrieve => "Failed to retrieve session. Please retry.",
        StoreFailure::List => "Failed to list sessions. Please retry.",
    };
    internal_error(message.to_string())
}

/// What a search left for a later save: its query, result ids, duration and providers.
#[derive(Debug, Clone)]
pub struct SearchSnapshot {
    pub query_id: u128,
    pub query: SearchQueryProfile,
    pub result_ids: Vec<u128>,
    pub search_duration_ms: u64,
    pub providers_used: Vec<Provider>,
    pub total_candidates_found: usize,
}

/// The link under which a session is shared.
pub open spec fn session_link(id: u128) -> Seq<char> {
    "/session/"@ + uuid_text(id)
}

/// The link under which the session `id` is shared.
pub fn shareable_link(id: u128) -> (s: String)
    ensures
        s@ == session_link(id),
{
    let mut v: Vec<char> = Vec::new();
    push_str(&mut v, "/session/");
    let mut t = uuid_to_text(id);
    v.append(&mut t);
    string_from_chars(v.as_slice())
}

/// The session saved from a validated request. Without a snapshot of the search, the session
/// stands on a placeholder query (keyword `saved-session`, provider Modrinth) with the shortlist as
/// its results. The session gets a fresh id and creation instant, is updated at `updated_at` and
/// carries the request's shortlist, notes, description and user, and the snapshot's duration,
/// providers and candidate count (kept to 32 bits).
pub fn build_saved_session(v: ValidatedSaveSession, snapshot: Option<SearchSnapshot>, updated_at: Timestamp) -> (s:
    SearchSessionSummary)
    ensures
        is_v4(s.id),
        s.updated_at == updated_at,
        crate::time::secs_in_calendar(s.created_at.secs + SESSION_LIFETIME_DAYS * 86400)
            ==> s.expires_at == Some(
            Timestamp {
                secs: (s.created_at.secs + SESSION_LIFETIME_DAYS * 86400) as i64,
                nanos: s.created_at.nanos,
            },
        ),
        !crate::time::secs_in_calendar(s.created_at.secs + SESSION_LIFETIME_DAYS * 86400)
            ==> s.expires_at is None,
        s.query_description == v.query_description,
        s.user_identifier == v.user_identifier,
        s.shortlisted_mods == v.shortlisted_mods,
        s.comparison_notes == v.comparison_notes,
        s.shareable_link matches Some(l) && l@ == session_link(s.id),
        match snapshot {
            Some(snap) => {
                &&& s.original_query == snap.query
                &&& s.search_duration_ms == snap.search_duration_ms
                &&& s.providers_used == snap.providers_used
                &&& s.total_candidates_found == snap.total_candidates_found as u32
            },
            None => {
                &&& s.original_query.keywords@.len() == 1
                &&& s.original_query.keywords@[0]@ == "saved-session"@
                &&& s.original_query.provider_scope@ == seq![Provider::Modrinth]
                &&& s.original_query.filters.is_empty_filters()
                &&& s.original_query.sort_mode == crate::models::SortMode::Relevance
                &&& s.original_query.session_id is None
                &&& s.original_query.user_context is None
                &&& is_v4(s.original_query.id)
                &&& s.search_duration_ms == 0
                &&& s.providers_used@ == seq![Provider::Modrinth]
                &&& s.total_candidates_found == v.shortlisted_mods@.len() as u32
            },
        },
{
    let (query, duration, providers, total) = match snapshot {
        Some(snap) => (snap.query, snap.search_duration_ms, snap.providers_used, snap.total_candidates_found),
        None => {
            let mut keywords: Vec<String> = Vec::new();
            keywords.push("saved-session".to_string());
            let mut scope: Vec<Provider> = Vec::new();
            scope.push(Provider::Modrinth);
            let mut used: Vec<Provider> = Vec::new();
            used.push(Provider::Modrinth);
            (SearchQueryProfile::new(keywords, scope), 0u64, used, v.shortlisted_mods.len())
        },
    };
    let mut session = SearchSessionSummary::new(query);
    session.updated_at = updated_at;
    session.query_description = v.query_description;
    session.shortlisted_mods = v.shortlisted_mods;
    session.comparison_notes = v.comparison_notes;
    session.search_duration_ms = duration;
    session.providers_used = providers;
    session.total_candidates_found = total as u32;
    session.shareable_link = Some(shareable_link(session.id));
    session.user_identifier = v.user_identifier;
    session
}

/// The text shown beside a shortlisted mod: its note, else `No note`.
pub fn note_text(notes: &[(u128, String)], id: u128) -> (s: String)
    ensures
        s@ == (match note_on(keyed_views(notes@), id) {
            Some(n) => n,
            None => "No note"@,
        }),
{
    let ghost ks = keyed_views(notes@);
    let mut i: usize = notes.len();
    assert(ks.take(i as int) =~= ks);
    while i > 0
        invariant
            i <= notes@.len(),
            ks == keyed_views(notes@),
            note_on(ks, id) == note_on(ks.take(i as int), id),
        decreases i,
    {
        let ghost t = ks.take(i as int);
        assert(t.last() == (notes@[i - 1].0, notes@[i - 1].1@));
        if notes[i - 1].0 == id {
            return notes[i - 1].1.clone();
        }
        assert(t.drop_last() =~= ks.take(i - 1));
        i = i - 1;
    }
    "No note".to_string()
}

/// The page size and user filter of a list request.
#[derive(Debug, Clone)]
pub struct PreparedListSessions {
    pub limit: usize,
    pub user_identifier: Option<String>,
}

/// Validates a list request: the limit defaults to 20 and is kept within 1..=100; the user
/// identifier is sanitized and at most 128 bytes.
pub fn prepare_list_sessions(query: &ListSessionsQuery) -> (r: Result<PreparedListSessions, ApiError>)
    ensures
        r is Ok <==> optional_text_error(opt_view(query.user_identifier), "user_identifier"@, 128) is None,
        r matches Err(e) ==> e.is(
            400,
            "INVALID_QUERY"@,
            optional_text_error(opt_view(query.user_identifier), "user_identifier"@, 128)->0,
        ),
        r matches Ok(p) ==> {
            &&& p.limit == clamp(
                match query.limit {
                    Some(l) => l as int,
                    None => 20,
                },
                1,
                100,
            )
            &&& opt_view(p.user_identifier) == accepted_text(opt_view(query.user_identifier))
        },
{
    let requested: usize = match query.limit {
        Some(l) => l,
        None => 20,
    };
    let limit: usize = if requested < 1 {
        1
    } else if requested > 100 {
        100
    } else {
        requested
    };
    let user_in: Option<&str> = match &query.user_identifier {
        Some(d) => Some(d.as_str()),
        None => None,
    };
    match sanitize_optional_text(user_in, "user_identifier", 128) {
        Ok(u) => Ok(PreparedListSessions { limit, user_identifier: u }),
        Err(m) => Err(invalid_query(m)),
    }
}

} // verus!
