//! The search endpoint: request validation, provider selection, filters, pagination and the
//! metadata of a response.
use vstd::prelude::*;
use crate::text::{
    trim, fold_ascii, chars_of, chars_of_string, trim_chars, eq_fold, string_from_chars,
    join_words, push_str, clone_strings, join_with_spaces, push_decimal, decimal,
};
use crate::validation::{
    views, non_empty, clean_list, validate_keywords, sanitize_string_list,
    validate_minecraft_version, parse_uuid, keywords_error, list_error, version_error,
    accepted_version, invalid_uuid_message,
};
use crate::ids::{uuid_from_text, is_v4, new_uuid_v4};
use crate::models::{
    ModLoader, Provider, SortMode, loader_named, sort_mode_named, loader_display_name,
    SearchFilters as ModelFilters,
};

verus! {

broadcast use vstd::string::group_string_axioms;

/// The filters of a search request, as sent.
#[derive(Debug, Clone)]
pub struct SearchFilters {
    pub minecraft_version: Option<String>,
    pub loaders: Vec<String>,
    pub categories: Vec<String>,
    pub update_recency_window_days: Option<u32>,
    pub min_downloads: Option<u64>,
    pub open_source_only: Option<bool>,
}

impl Default for SearchFilters {
    fn default() -> (f: SearchFilters)
        ensures
            f.minecraft_version is None,
            f.loaders@.len() == 0,
            f.categories@.len() == 0,
            f.update_recency_window_days is None,
            f.min_downloads is None,
            f.open_source_only is None,
    {
        SearchFilters {
            minecraft_version: None,
            loaders: Vec::new(),
            categories: Vec::new(),
            update_recency_window_days: None,
            min_downloads: None,
            open_source_only: None,
        }
    }
}

/// A search request, as sent.
#[derive(Debug, Clone)]
pub struct SearchRequest {
    pub keywords: Vec<String>,
    pub filters: SearchFilters,
    pub provider_scope: Vec<String>,
    pub sort_mode: Option<String>,
    pub offset: Option<usize>,
    pub limit: Option<usize>,
    pub force_refresh: bool,
    pub search_id: Option<String>,
}

/// The body of an error response.
#[derive(Debug, Clone)]
pub struct ErrorPayload {
    pub code: String,
    pub message: String,
}

/// An error response.
#[derive(Debug, Clone)]
pub struct ErrorResponse {
    pub error: ErrorPayload,
}

/// An HTTP status with an error response.
#[derive(Debug, Clone)]
pub struct ApiError {
    pub status: u16,
    pub body: ErrorResponse,
}

impl ApiError {
    /// The status, code and message of the error.
    pub open spec fn is(&self, status: u16, code: Seq<char>, message: Seq<char>) -> bool {
        self.status == status && self.body.error.code@ == code && self.body.error.message@
            == message
    }
}

/// A `400 INVALID_QUERY` error with the given message.
pub fn invalid_query(message: String) -> (e: ApiError)
    ensures
        e.is(400, "INVALID_QUERY"@, message@),
{
    ApiError {
        status: 400,
        body: ErrorResponse { error: ErrorPayload { code: "INVALID_QUERY".to_string(), message } },
    }
}

/// A `500 INTERNAL_ERROR` error with the given message.
pub fn internal_error(message: String) -> (e: ApiError)
    ensures
        e.is(500, "INTERNAL_ERROR"@, message@),
{
    ApiError {
        status: 500,
        body: ErrorResponse { error: ErrorPayload { code: "INTERNAL_ERROR".to_string(), message } },
    }
}

/// A `404 NOT_FOUND` error with the given message.
pub fn not_found(message: String) -> (e: ApiError)
    ensures
        e.is(404, "NOT_FOUND"@, message@),
{
    ApiError {
        status: 404,
        body: ErrorResponse { error: ErrorPayload { code: "NOT_FOUND".to_string(), message } },
    }
}

/// Reads the id in a request path; a malformed id is a `400 INVALID_QUERY` error that names the
/// field. The text that a shareable link carries for a session id reads back as that id.
pub fn parse_path_id(value: &str, field: &str) -> (r: Result<u128, ApiError>)
    ensures
        r is Ok <==> uuid_from_text(value@) is Some,
        r matches Ok(u) ==> uuid_from_text(value@) == Some(u),
        r matches Err(e) ==> e.is(400, "INVALID_QUERY"@, invalid_uuid_message(field@)),
        forall|u: u128| #[trigger] crate::ids::uuid_text(u) == value@ ==> r == Ok::<u128, ApiError>(u),
{
    match parse_uuid(value, field) {
        Ok(u) => Ok(u),
        Err(m) => Err(invalid_query(m)),
    }
}

/// What a lookup by id did not find.
#[derive(Debug, Clone, Copy, PartialEq, Eq, Structural)]
pub enum Missing {
    ModProfile,
    SearchProgress,
    Session,
}

/// The message sent where a lookup finds nothing.
pub open spec fn missing_message(what: Missing) -> Seq<char> {
    match what {
        Missing::ModProfile => "Mod profile not found. Run a search first to populate the profile cache."@,
        Missing::SearchProgress => "Search progress not found. Ensure search_id was returned by /api/v1/search."@,
        Missing::Session => "Session not found. It may have expired or been deleted."@,
    }
}

/// The `404 NOT_FOUND` error for a lookup that finds nothing.
pub fn missing(what: Missing) -> (e: ApiError)
    ensures
        e.is(404, "NOT_FOUND"@, missing_message(what)),
{
    let message = match what {
        Missing::ModProfile => "Mod profile not found. Run a search first to populate the profile cache.",
        Missing::SearchProgress => "Search progress not found. Ensure search_id was returned by /api/v1/search.",
        Missing::Session => "Session not found. It may have expired or been deleted.",
    };
    not_found(message.to_string())
}

/// The providers a search may query.
#[derive(Debug, Clone, Copy, PartialEq, Eq, Structural)]
pub struct ProviderScope {
    pub modrinth: bool,
    pub curseforge: bool,
}

/// Whether the requested provider names select `name`: an empty request selects every provider;
/// otherwise a name counts when, trimmed and ignoring ASCII case, it equals `name`.
pub open spec fn scope_selects(inputs: Seq<Seq<char>>, name: Seq<char>) -> bool {
    inputs.len() == 0 || exists|i: int|
        0 <= i < inputs.len() && fold_ascii(trim(#[trigger] inputs[i])) == name
}

/// The providers selected by the requested provider names; unknown names are ignored.
pub fn normalized_provider_scope(provider_scope: &[String]) -> (s: ProviderScope)
    ensures
        s.modrinth == scope_selects(views(provider_scope@), "modrinth"@),
        s.curseforge == scope_selects(views(provider_scope@), "curseforge"@),
{
    if provider_scope.len() == 0 {
        return ProviderScope { modrinth: true, curseforge: true };
    }
    let mut modrinth = false;
    let mut curseforge = false;
    let mut i: usize = 0;
    while i < provider_scope.len()
        invariant
            i <= provider_scope@.len(),
            provider_scope@.len() > 0,
            modrinth == exists|j: int|
                0 <= j < i && fold_ascii(trim(#[trigger] views(provider_scope@)[j])) == "modrinth"@,
            curseforge == exists|j: int|
                0 <= j < i && fold_ascii(trim(#[trigger] views(provider_scope@)[j]))
                    == "curseforge"@,
        decreases provider_scope@.len() - i,
    {
        let v = chars_of_string(&provider_scope[i]);
        let t = trim_chars(v.as_slice());
        assert(views(provider_scope@)[i as int] == provider_scope@[i as int]@);
        if eq_fold(t.as_slice(), "modrinth") {
            modrinth = true;
        }
        if eq_fold(t.as_slice(), "curseforge") {
            curseforge = true;
        }
        i = i + 1;
    }
    ProviderScope { modrinth, curseforge }
}

impl ProviderScope {
    /// Whether `name` is one of the selected providers.
    pub open spec fn has(&self, name: Seq<char>) -> bool {
        (name == "modrinth"@ && self.modrinth) || (name == "curseforge"@ && self.curseforge)
    }
}

/// Whether the scope selects the provider named `provider`.
pub fn should_use_provider(provider: &str, provider_scope: &ProviderScope) -> (b: bool)
    ensures
        b == provider_scope.has(provider@),
{
    let v = chars_of(provider);
    let m = chars_of("modrinth");
    let c = chars_of("curseforge");
    (crate::text::chars_eq(v.as_slice(), m.as_slice()) && provider_scope.modrinth) || (
    crate::text::chars_eq(v.as_slice(), c.as_slice()) && provider_scope.curseforge)
}

/// The provider that `name` names, ignoring ASCII case: only Modrinth and CurseForge.
pub open spec fn provider_named(name: Seq<char>) -> Option<Provider> {
    if fold_ascii(name) == "modrinth"@ {
        Some(Provider::Modrinth)
    } else if fold_ascii(name) == "curseforge"@ {
        Some(Provider::CurseForge)
    } else {
        None
    }
}

/// The provider that `provider` names, ignoring ASCII case.
pub fn provider_from_name(provider: &str) -> (p: Option<Provider>)
    ensures
        p == provider_named(provider@),
{
    let v = chars_of(provider);
    if eq_fold(v.as_slice(), "modrinth") {
        Some(Provider::Modrinth)
    } else if eq_fold(v.as_slice(), "curseforge") {
        Some(Provider::CurseForge)
    } else {
        None
    }
}

/// The function `loader_named`, as a value.
pub open spec fn loader_reader() -> spec_fn(Seq<char>) -> Option<ModLoader> {
    |s: Seq<char>| loader_named(s)
}

/// The function `trim`, as a value.
pub open spec fn trimmer() -> spec_fn(Seq<char>) -> Seq<char> {
    |s: Seq<char>| trim(s)
}

/// The loaders that the names name; names that name no loader are dropped.
pub fn loaders_from_names(names: &[String]) -> (out: Vec<ModLoader>)
    ensures
        out@ == views(names@).filter_map(loader_reader()),
{
    let mut out: Vec<ModLoader> = Vec::new();
    let mut i: usize = 0;
    while i < names.len()
        invariant
            i <= names@.len(),
            out@ == views(names@).take(i as int).filter_map(loader_reader()),
        decreases names@.len() - i,
    {
        proof {
            let t = views(names@).take(i + 1);
            assert(t.drop_last() =~= views(names@).take(i as int));
            reveal_with_fuel(Seq::filter_map, 1);
        }
        match ModLoader::from_str(names[i].as_str()) {
            Some(l) => {
                out.push(l);
                assert(out@ =~= views(names@).take(i as int).filter_map(loader_reader()) + seq![l]);
            },
            None => {},
        }
        i = i + 1;
    }
    assert(views(names@).take(names@.len() as int) =~= views(names@));
    out
}

/// The values trimmed, empty ones dropped.
pub fn trimmed_non_empty(values: &[String]) -> (out: Vec<String>)
    ensures
        views(out@) == views(values@).map_values(trimmer()).filter(non_empty()),
{
    let mut out: Vec<String> = Vec::new();
    let mut i: usize = 0;
    while i < values.len()
        invariant
            i <= values@.len(),
            views(out@) == views(values@).take(i as int).map_values(trimmer()).filter(non_empty()),
        decreases values@.len() - i,
    {
        proof {
            let m1 = views(values@).take(i + 1).map_values(trimmer());
            assert(m1.drop_last() =~= views(values@).take(i as int).map_values(trimmer()));
            reveal_with_fuel(Seq::filter, 1);
        }
        let v = chars_of_string(&values[i]);
        let t = trim_chars(v.as_slice());
        let ghost before = views(out@);
        if t.len() > 0 {
            out.push(string_from_chars(t.as_slice()));
            assert(views(out@) =~= before.push(t@));
        }
        i = i + 1;
    }
    assert(views(values@).take(values@.len() as int) =~= views(values@));
    out
}

/// An optional text trimmed, and dropped where it becomes empty.
pub open spec fn trimmed_option(v: Option<String>) -> Option<Seq<char>> {
    match v {
        Some(s) => if trim(s@).len() > 0 {
            Some(trim(s@))
        } else {
            None
        },
        None => None,
    }
}

/// The view of an optional text.
pub open spec fn opt_view(v: Option<String>) -> Option<Seq<char>> {
    match v {
        Some(s) => Some(s@),
        None => None,
    }
}

/// An optional text trimmed, and dropped where it becomes empty.
pub fn trim_option(v: &Option<String>) -> (out: Option<String>)
    ensures
        opt_view(out) == trimmed_option(*v),
{
    match v {
        Some(s) => {
            let c = chars_of_string(s);
            let t = trim_chars(c.as_slice());
            if t.len() > 0 {
                Some(string_from_chars(t.as_slice()))
            } else {
                None
            }
        },
        None => None,
    }
}

/// The model filters for the request filters: version and categories trimmed (empty ones
/// dropped), loaders read by name (unknown ones dropped), open-source only where set to true.
pub open spec fn model_filters_of(
    version: Option<String>,
    loaders: Seq<String>,
    categories: Seq<String>,
    days: Option<u32>,
    min_downloads: Option<u64>,
    open_source_only: bool,
    f: ModelFilters,
) -> bool {
    &&& opt_view(f.minecraft_version) == trimmed_option(version)
    &&& f.loaders@ == views(loaders).filter_map(loader_reader())
    &&& views(f.categories@) == views(categories).map_values(trimmer()).filter(non_empty())
    &&& f.update_recency_window_days == days
    &&& f.min_downloads == min_downloads
    &&& f.open_source_only == open_source_only
}

/// The model filters for the filters of a search request.
pub fn to_model_filters(filters: &SearchFilters) -> (f: ModelFilters)
    ensures
        model_filters_of(
            filters.minecraft_version,
            filters.loaders@,
            filters.categories@,
            filters.update_recency_window_days,
            filters.min_downloads,
            filters.open_source_only == Some(true),
            f,
        ),
{
    ModelFilters {
        minecraft_version: trim_option(&filters.minecraft_version),
        loaders: loaders_from_names(filters.loaders.as_slice()),
        categories: trimmed_non_empty(filters.categories.as_slice()),
        update_recency_window_days: filters.update_recency_window_days,
        min_downloads: filters.min_downloads,
        open_source_only: match filters.open_source_only {
            Some(b) => b,
            None => false,
        },
    }
}

/// The sort mode a request asks for: the named one, else relevance.
pub open spec fn requested_sort(sort_mode: Option<Seq<char>>) -> SortMode {
    match sort_mode {
        Some(s) => match sort_mode_named(s) {
            Some(m) => m,
            None => SortMode::Relevance,
        },
        None => SortMode::Relevance,
    }
}

/// The sort mode named by `sort_mode`, else relevance.
pub fn parse_sort_mode(sort_mode: Option<&str>) -> (m: SortMode)
    ensures
        m == requested_sort(
            match sort_mode {
                Some(s) => Some(s@),
                None => None,
            },
        ),
{
    match sort_mode {
        Some(s) => match SortMode::parse(s) {
            Some(m) => m,
            None => SortMode::Relevance,
        },
        None => SortMode::Relevance,
    }
}

/// The sort mode text that keys cached results: the requested text trimmed, else `Relevance`.
pub open spec fn sort_hint_of(sort_mode: Option<String>) -> Seq<char> {
    match trimmed_option(sort_mode) {
        Some(t) => t,
        None => "Relevance"@,
    }
}

/// The sort mode text that keys cached results for this request.
pub fn sort_mode_hint(request: &SearchRequest) -> (h: String)
    ensures
        h@ == sort_hint_of(request.sort_mode),
{
    match trim_option(&request.sort_mode) {
        Some(t) => t,
        None => "Relevance".to_string(),
    }
}

/// The view of an optional text.
pub open spec fn opt_str_view(v: Option<&str>) -> Option<Seq<char>> {
    match v {
        Some(s) => Some(s@),
        None => None,
    }
}

/// Message for a request that selects no known provider.
pub open spec fn no_known_provider_message() -> Seq<char> {
    "provider_scope must include at least one of: modrinth, curseforge"@
}

/// The message of the first check that a search request fails, in the order the endpoint checks
/// them; `None` where the request is valid.
pub open spec fn search_request_error(r: SearchRequest) -> Option<Seq<char>> {
    let id_bad = r.search_id matches Some(s) && uuid_from_text(s@) is None;
    let scope_in = clean_list(views(r.provider_scope@));
    if id_bad {
        Some(invalid_uuid_message("search_id"@))
    } else if keywords_error(views(r.keywords@)) is Some {
        keywords_error(views(r.keywords@))
    } else if list_error(views(r.filters.loaders@), "filters.loaders"@, 8, 24) is Some {
        list_error(views(r.filters.loaders@), "filters.loaders"@, 8, 24)
    } else if list_error(views(r.filters.categories@), "filters.categories"@, 25, 64) is Some {
        list_error(views(r.filters.categories@), "filters.categories"@, 25, 64)
    } else if list_error(views(r.provider_scope@), "provider_scope"@, 4, 24) is Some {
        list_error(views(r.provider_scope@), "provider_scope"@, 4, 24)
    } else if version_error(opt_view(r.filters.minecraft_version)) is Some {
        version_error(opt_view(r.filters.minecraft_version))
    } else if !scope_selects(scope_in, "modrinth"@) && !scope_selects(scope_in, "curseforge"@) {
        Some(no_known_provider_message())
    } else {
        None
    }
}

/// A validated search request.
#[derive(Debug, Clone)]
pub struct PreparedSearch {
    /// The requested id, or a fresh random one.
    pub search_id: u128,
    /// The sanitized keywords.
    pub keywords: Vec<String>,
    /// The request filters, sanitized.
    pub filters: SearchFilters,
    /// The selected providers, Modrinth first.
    pub providers_queried: Vec<String>,
    /// The keywords joined by spaces.
    pub query: String,
    /// The sort mode text that keys cached results.
    pub sort_hint: String,
    /// The sort mode to apply.
    pub sort_mode: SortMode,
}

/// The providers queried for a scope, Modrinth first.
pub open spec fn queried_names(scope_in: Seq<Seq<char>>) -> Seq<Seq<char>> {
    (if scope_selects(scope_in, "modrinth"@) {
        seq!["modrinth"@]
    } else {
        seq![]
    }) + (if scope_selects(scope_in, "curseforge"@) {
        seq!["curseforge"@]
    } else {
        seq![]
    })
}

/// A search request that passes validation carries between 1 and 10 keywords, each of at most 64
/// bytes, and queries one or both known providers, Modrinth first.
pub proof fn law_valid_search_is_runnable(r: SearchRequest)
    requires
        search_request_error(r) is None,
    ensures
        1 <= clean_list(views(r.keywords@)).len() <= 10,
        forall|i: int|
            0 <= i < clean_list(views(r.keywords@)).len() ==> crate::text::byte_len(
                #[trigger] clean_list(views(r.keywords@))[i],
            ) <= 64,
        1 <= queried_names(clean_list(views(r.provider_scope@))).len() <= 2,
        queried_names(clean_list(views(r.provider_scope@)))[0] == "modrinth"@ || queried_names(
            clean_list(views(r.provider_scope@)),
        ) == seq!["curseforge"@],
{
    let k = clean_list(views(r.keywords@));
    assert forall|i: int| 0 <= i < k.len() implies crate::text::byte_len(#[trigger] k[i]) <= 64 by {
        if crate::text::byte_len(k[i]) > 64 {
            assert(crate::validation::any_longer(k, 64));
        }
    }
}

/// A request that passes the id, keyword, list and version checks is refused for its provider
/// scope exactly when its cleaned scope selects neither provider, and is otherwise accepted with
/// each selected provider queried, and no other.
pub proof fn law_scope_refused_only_without_provider(r: SearchRequest)
    requires
        !(r.search_id matches Some(s) && uuid_from_text(s@) is None),
        keywords_error(views(r.keywords@)) is None,
        list_error(views(r.filters.loaders@), "filters.loaders"@, 8, 24) is None,
        list_error(views(r.filters.categories@), "filters.categories"@, 25, 64) is None,
        list_error(views(r.provider_scope@), "provider_scope"@, 4, 24) is None,
        version_error(opt_view(r.filters.minecraft_version)) is None,
    ensures
        search_request_error(r) is None <==> (scope_selects(
            clean_list(views(r.provider_scope@)),
            "modrinth"@,
        ) || scope_selects(clean_list(views(r.provider_scope@)), "curseforge"@)),
        search_request_error(r) is Some ==> search_request_error(r) == Some(
            no_known_provider_message(),
        ),
        forall|name: Seq<char>|
            (name == "modrinth"@ || name == "curseforge"@) ==> (queried_names(
                clean_list(views(r.provider_scope@)),
            ).contains(name) <==> scope_selects(clean_list(views(r.provider_scope@)), name)),
        scope_selects(clean_list(views(r.provider_scope@)), "modrinth"@) && !scope_selects(
            clean_list(views(r.provider_scope@)),
            "curseforge"@,
        ) ==> queried_names(clean_list(views(r.provider_scope@))) == seq!["modrinth"@],
        !scope_selects(clean_list(views(r.provider_scope@)), "modrinth"@) && scope_selects(
            clean_list(views(r.provider_scope@)),
            "curseforge"@,
        ) ==> queried_names(clean_list(views(r.provider_scope@))) == seq!["curseforge"@],
{
    let c = clean_list(views(r.provider_scope@));
    let q = queried_names(c);
    reveal_strlit("modrinth");
    reveal_strlit("curseforge");
    assert("modrinth"@ != "curseforge"@) by {
        assert("modrinth"@.len() != "curseforge"@.len());
    }
    assert forall|name: Seq<char>|
        (name == "modrinth"@ || name == "curseforge"@) implies (q.contains(name) <==> scope_selects(
            c,
            name,
        )) by {
        if scope_selects(c, name) {
            if name == "modrinth"@ {
                assert(q[0] == name);
            } else {
                assert(q[q.len() - 1] == name);
            }
        }
        if q.contains(name) {
            let j = choose|j: int| 0 <= j < q.len() && q[j] == name;
            if scope_selects(c, "modrinth"@) && j == 0 {
            } else {
            }
        }
    }
}

/// Validates a search request as the search endpoint does, in its order: the search id, the
/// keywords (1 to 10), the loader (8 of 24 bytes), category (25 of 64 bytes) and provider (4 of 24
/// bytes) lists, the Minecraft version, and that a known provider is selected.
pub fn prepare_search(request: &SearchRequest) -> (r: Result<PreparedSearch, ApiError>)
    ensures
        r is Ok <==> search_request_error(*request) is None,
        r matches Err(e) ==> e.is(400, "INVALID_QUERY"@, search_request_error(*request)->0),
        r matches Ok(p) ==> {
            &&& (request.search_id matches Some(s) ==> uuid_from_text(s@) == Some(p.search_id))
            &&& (request.search_id is None ==> is_v4(p.search_id))
            &&& views(p.keywords@) == clean_list(views(request.keywords@))
            &&& views(p.filters.loaders@) == clean_list(views(request.filters.loaders@))
            &&& views(p.filters.categories@) == clean_list(views(request.filters.categories@))
            &&& opt_view(p.filters.minecraft_version) == accepted_version(
                opt_view(request.filters.minecraft_version),
            )
            &&& p.filters.update_recency_window_days == request.filters.update_recency_window_days
            &&& p.filters.min_downloads == request.filters.min_downloads
            &&& p.filters.open_source_only == request.filters.open_source_only
            &&& views(p.providers_queried@) == queried_names(
                clean_list(views(request.provider_scope@)),
            )
            &&& p.query@ == join_words(views(p.keywords@))
            &&& p.sort_hint@ == sort_hint_of(request.sort_mode)
            &&& p.sort_mode == requested_sort(opt_view(request.sort_mode))
        },
{
    let search_id = match &request.search_id {
        Some(s) => match parse_uuid(s.as_str(), "search_id") {
            Ok(u) => u,
            Err(m) => {
                return Err(invalid_query(m));
            },
        },
        None => new_uuid_v4(),
    };
    let keywords = match validate_keywords(request.keywords.as_slice()) {
        Ok(k) => k,
        Err(m) => {
            return Err(invalid_query(m));
        },
    };
    let loaders = match sanitize_string_list(request.filters.loaders.as_slice(), "filters.loaders", 8, 24) {
        Ok(v) => v,
        Err(m) => {
            return Err(invalid_query(m));
        },
    };
    let categories = match sanitize_string_list(
        request.filters.categories.as_slice(),
        "filters.categories",
        25,
        64,
    ) {
        Ok(v) => v,
        Err(m) => {
            return Err(invalid_query(m));
        },
    };
    let scope_input = match sanitize_string_list(request.provider_scope.as_slice(), "provider_scope", 4, 24) {
        Ok(v) => v,
        Err(m) => {
            return Err(invalid_query(m));
        },
    };
    let version_in: Option<&str> = match &request.filters.minecraft_version {
        Some(v) => Some(v.as_str()),
        None => None,
    };
    let minecraft_version = match validate_minecraft_version(version_in) {
        Ok(v) => v,
        Err(m) => {
            return Err(invalid_query(m));
        },
    };
    let scope = normalized_provider_scope(scope_input.as_slice());
    let mut providers_queried: Vec<String> = Vec::new();
    if should_use_provider("modrinth", &scope) {
        providers_queried.push("modrinth".to_string());
    }
    if should_use_provider("curseforge", &scope) {
        providers_queried.push("curseforge".to_string());
    }
    if providers_queried.len() == 0 {
        return Err(invalid_query("provider_scope must include at least one of: modrinth, curseforge".to_string()));
    }
    proof {
        assert(views(providers_queried@) =~= queried_names(clean_list(views(request.provider_scope@))));
    }
    let query = join_with_spaces(keywords.as_slice());
    let sort_hint = sort_mode_hint(request);
    let sort_text: Option<&str> = match &request.sort_mode {
        Some(s) => Some(s.as_str()),
        None => None,
    };
    let sort_mode = parse_sort_mode(sort_text);
    Ok(PreparedSearch {
        search_id,
        keywords,
        filters: SearchFilters {
            minecraft_version,
            loaders,
            categories,
            update_recency_window_days: request.filters.update_recency_window_days,
            min_downloads: request.filters.min_downloads,
            open_source_only: request.filters.open_source_only,
        },
        providers_queried,
        query,
        sort_hint,
        sort_mode,
    })
}

/// Where a page of results starts and ends.
#[derive(Debug, Clone, Copy, PartialEq, Eq, Structural)]
pub struct PaginationMetadata {
    pub offset: usize,
    pub limit: usize,
    pub returned: usize,
    pub total: usize,
    pub has_more: bool,
}

/// `v` kept within `lo..=hi`.
pub open spec fn clamp(v: int, lo: int, hi: int) -> int {
    if v < lo {
        lo
    } else if v > hi {
        hi
    } else {
        v
    }
}

/// The page of `total` results for the requested offset (default 0) and limit (default 50, kept
/// within 1..=100): it starts at the offset, or at the end where the offset lies beyond it.
pub fn paginate(total: usize, offset: Option<usize>, limit: Option<usize>) -> (p: PaginationMetadata)
    ensures
        p.limit == clamp(
            match limit {
                Some(l) => l as int,
                None => 50,
            },
            1,
            100,
        ),
        p.offset == (match offset {
            Some(o) => if o <= total {
                o as int
            } else {
                total as int
            },
            None => 0,
        }),
        p.offset + p.returned == (if p.offset + p.limit <= total {
            p.offset + p.limit
        } else {
            total as int
        }),
        p.total == total,
        p.has_more == (p.offset + p.returned < total),
{
    let requested: usize = match limit {
        Some(l) => l,
        None => 50,
    };
    let lim: usize = if requested < 1 {
        1
    } else if requested > 100 {
        100
    } else {
        requested
    };
    let start: usize = match offset {
        Some(o) => if o <= total {
            o
        } else {
            total
        },
        None => 0,
    };
    let end: usize = if lim <= total - start {
        start + lim
    } else {
        total
    };
    PaginationMetadata {
        offset: start,
        limit: lim,
        returned: end - start,
        total,
        has_more: end < total,
    }
}

/// The page of `results` for the requested offset and limit, as `paginate` describes it, and the
/// results on it: those from the page's offset on, as many as it returns, in order.
pub fn paginate_results<T>(results: Vec<T>, offset: Option<usize>, limit: Option<usize>) -> (r: (
    Vec<T>,
    PaginationMetadata,
))
    ensures
        r.1.total == results@.len(),
        r.1.limit == clamp(
            match limit {
                Some(l) => l as int,
                None => 50,
            },
            1,
            100,
        ),
        r.1.offset == (match offset {
            Some(o) => if o <= results@.len() {
                o as int
            } else {
                results@.len() as int
            },
            None => 0,
        }),
        r.1.offset + r.1.returned == (if r.1.offset + r.1.limit <= results@.len() {
            r.1.offset + r.1.limit
        } else {
            results@.len() as int
        }),
        r.1.has_more == (r.1.offset + r.1.returned < results@.len()),
        r.0@ == results@.subrange(r.1.offset as int, r.1.offset + r.1.returned),
{
    let page = paginate(results.len(), offset, limit);
    let mut rest = results;
    let mut on_page = rest.split_off(page.offset);
    on_page.truncate(page.returned);
    (on_page, page)
}

/// Pages never hold more than their limit, never run past the results, and the page that starts
/// where another ended follows on without a gap or overlap.
pub proof fn law_pages_tile(total: usize, p: PaginationMetadata, q: PaginationMetadata)
    requires
        p.total == total && q.total == total,
        1 <= p.limit <= 100,
        p.offset <= total,
        p.offset + p.returned == (if p.offset + p.limit <= total {
            p.offset + p.limit
        } else {
            total as int
        }),
        q.offset == p.offset + p.returned,
        p.has_more == (p.offset + p.returned < total),
    ensures
        p.returned <= p.limit,
        p.offset + p.returned <= total,
        p.has_more ==> p.returned == p.limit && q.offset < total,
        !p.has_more ==> q.offset == total,
{
}

/// The results on a page, followed by those on the page that starts where it ends, are the results
/// from the first page's offset to the end of the second, with none left out or repeated.
pub proof fn law_pages_concatenate<T>(results: Seq<T>, p: PaginationMetadata, q: PaginationMetadata)
    requires
        p.offset + p.returned == q.offset,
        q.offset + q.returned <= results.len(),
    ensures
        results.subrange(p.offset as int, p.offset + p.returned) + results.subrange(
            q.offset as int,
            q.offset + q.returned,
        ) == results.subrange(p.offset as int, q.offset + q.returned),
{
    assert(results.subrange(p.offset as int, p.offset + p.returned) + results.subrange(
        q.offset as int,
        q.offset + q.returned,
    ) =~= results.subrange(p.offset as int, q.offset + q.returned));
}

/// The HTTP status of a completed search: 503 where nothing passed the filters and some provider
/// failed, else 200.
pub fn search_status(post_filter_results: usize, failed_providers: usize) -> (s: u16)
    ensures
        s == (if post_filter_results == 0 && failed_providers > 0 {
            503u16
        } else {
            200u16
        }),
{
    if post_filter_results == 0 && failed_providers > 0 {
        503
    } else {
        200
    }
}

/// How a provider request failed.
#[derive(Debug, Clone, Copy, PartialEq, Eq, Structural)]
pub enum FailureSeverity {
    Timeout,
    CircuitOpen,
    RateLimited,
    Unavailable,
    InvalidResponse,
}

/// A failed provider request.
#[derive(Debug, Clone)]
pub struct ProviderFailure {
    pub provider: String,
    pub error: String,
    pub severity: FailureSeverity,
}

/// A provider failure as reported in search metadata.
#[derive(Debug, Clone)]
pub struct ProviderErrorMetadata {
    pub provider: String,
    pub error: String,
    pub severity: String,
    pub reason: String,
    pub timestamp: i64,
}

/// The reported severity of a failure: timeouts, open circuits and rate limits warn, the rest are
/// errors.
pub open spec fn severity_label(s: FailureSeverity) -> Seq<char> {
    match s {
        FailureSeverity::Timeout | FailureSeverity::CircuitOpen | FailureSeverity::RateLimited => "warning"@,
        _ => "error"@,
    }
}

/// The reported reason of a failure.
pub open spec fn reason_label(s: FailureSeverity) -> Seq<char> {
    match s {
        FailureSeverity::Timeout => "timeout"@,
        FailureSeverity::CircuitOpen => "circuit_open"@,
        FailureSeverity::RateLimited => "rate_limited"@,
        FailureSeverity::Unavailable => "provider_unavailable"@,
        FailureSeverity::InvalidResponse => "invalid_response"@,
    }
}

/// The labels of a failure severity.
pub fn severity_labels(s: FailureSeverity) -> (r: (&'static str, &'static str))
    ensures
        r.0@ == severity_label(s),
        r.1@ == reason_label(s),
{
    match s {
        FailureSeverity::Timeout => ("warning", "timeout"),
        FailureSeverity::CircuitOpen => ("warning", "circuit_open"),
        FailureSeverity::RateLimited => ("warning", "rate_limited"),
        FailureSeverity::Unavailable => ("error", "provider_unavailable"),
        FailureSeverity::InvalidResponse => ("error", "invalid_response"),
    }
}

/// A provider failure as reported, stamped with `timestamp` (Unix seconds).
pub fn failure_metadata_at(failure: &ProviderFailure, timestamp: i64) -> (m: ProviderErrorMetadata)
    ensures
        m.provider@ == failure.provider@,
        m.error@ == failure.error@,
        m.severity@ == severity_label(failure.severity),
        m.reason@ == reason_label(failure.severity),
        m.timestamp == timestamp,
{
    let (severity, reason) = severity_labels(failure.severity);
    ProviderErrorMetadata {
        provider: failure.provider.clone(),
        error: failure.error.clone(),
        severity: severity.to_string(),
        reason: reason.to_string(),
        timestamp,
    }
}

/// A provider failure as reported, stamped with the current time (Unix seconds).
pub fn failure_to_metadata(failure: &ProviderFailure) -> (m: ProviderErrorMetadata)
    ensures
        m.provider@ == failure.provider@,
        m.error@ == failure.error@,
        m.severity@ == severity_label(failure.severity),
        m.reason@ == reason_label(failure.severity),
        crate::time::in_calendar_range(crate::time::Timestamp { secs: m.timestamp, nanos: 0 }),
{
    let now = crate::time::utc_now();
    failure_metadata_at(failure, now.secs)
}

/// The filters a search applied, as reported.
#[derive(Debug, Clone)]
pub struct AppliedFiltersMetadata {
    pub minecraft_version: Option<String>,
    pub loaders: Vec<String>,
    pub categories: Vec<String>,
    pub update_recency_window_days: Option<u32>,
    pub min_downloads: Option<u64>,
    pub open_source_only: bool,
}

/// The metadata of a search response.
#[derive(Debug, Clone)]
pub struct SearchMetadata {
    pub total_time_ms: u64,
    pub providers_queried: Vec<String>,
    pub providers_succeeded: Vec<String>,
    pub provider_errors: Vec<ProviderErrorMetadata>,
    pub degradation_reason: Option<String>,
    pub sort_mode: String,
    pub pre_filter_results: usize,
    pub post_filter_results: usize,
    pub pagination: PaginationMetadata,
    pub filters_applied: AppliedFiltersMetadata,
}

/// The reason given where some provider failed.
pub open spec fn degraded_reason() -> Seq<char> {
    "One or more providers failed; showing available results"@
}

/// The function `loader_display_name`, as a value.
pub open spec fn loader_namer() -> spec_fn(ModLoader) -> Seq<char> {
    |l: ModLoader| loader_display_name(l)
}

/// The capitalized names of loaders.
pub fn loader_names(loaders: &[ModLoader]) -> (out: Vec<String>)
    ensures
        views(out@) == loaders@.map_values(loader_namer()),
{
    let mut out: Vec<String> = Vec::new();
    let mut i: usize = 0;
    while i < loaders.len()
        invariant
            i <= loaders@.len(),
            views(out@) == loaders@.take(i as int).map_values(loader_namer()),
        decreases loaders@.len() - i,
    {
        let ghost before = views(out@);
        let name = loaders[i].display_name().to_string();
        assert(name@ == loader_namer()(loaders@[i as int]));
        out.push(name);
        assert(loaders@.take(i + 1).map_values(loader_namer()) =~= loaders@.take(i as int).map_values(
            loader_namer(),
        ).push(loader_namer()(loaders@[i as int])));
        assert(views(out@) =~= before.push(name@));
        i = i + 1;
    }
    assert(loaders@.take(loaders@.len() as int) =~= loaders@);
    out
}

/// The reported form of the filters a search applied.
pub fn applied_filters(filters: &ModelFilters) -> (a: AppliedFiltersMetadata)
    ensures
        opt_view(a.minecraft_version) == opt_view(filters.minecraft_version),
        views(a.loaders@) == filters.loaders@.map_values(loader_namer()),
        a.categories@ == filters.categories@,
        a.update_recency_window_days == filters.update_recency_window_days,
        a.min_downloads == filters.min_downloads,
        a.open_source_only == filters.open_source_only,
{
    AppliedFiltersMetadata {
        minecraft_version: match &filters.minecraft_version {
            Some(v) => Some(v.clone()),
            None => None,
        },
        loaders: loader_names(filters.loaders.as_slice()),
        categories: clone_strings(filters.categories.as_slice()),
        update_recency_window_days: filters.update_recency_window_days,
        min_downloads: filters.min_downloads,
        open_source_only: filters.open_source_only,
    }
}

/// The metadata of a search response; a degradation reason is given exactly where some provider
/// failed.
pub fn search_metadata(
    total_time_ms: u64,
    providers_queried: Vec<String>,
    providers_succeeded: Vec<String>,
    provider_errors: Vec<ProviderErrorMetadata>,
    sort_mode: SortMode,
    pre_filter_results: usize,
    post_filter_results: usize,
    pagination: PaginationMetadata,
    filters: &ModelFilters,
) -> (m: SearchMetadata)
    ensures
        m.total_time_ms == total_time_ms,
        m.providers_queried == providers_queried,
        m.providers_succeeded == providers_succeeded,
        m.provider_errors == provider_errors,
        m.degradation_reason is Some <==> provider_errors@.len() > 0,
        m.degradation_reason matches Some(d) ==> d@ == degraded_reason(),
        m.sort_mode@ == crate::models::sort_mode_name(sort_mode),
        m.pre_filter_results == pre_filter_results,
        m.post_filter_results == post_filter_results,
        m.pagination == pagination,
        opt_view(m.filters_applied.minecraft_version) == opt_view(filters.minecraft_version),
        views(m.filters_applied.loaders@) == filters.loaders@.map_values(loader_namer()),
        m.filters_applied.categories@ == filters.categories@,
        m.filters_applied.update_recency_window_days == filters.update_recency_window_days,
        m.filters_applied.min_downloads == filters.min_downloads,
        m.filters_applied.open_source_only == filters.open_source_only,
{
    let degradation_reason = if provider_errors.len() == 0 {
        None
    } else {
        Some("One or more providers failed; showing available results".to_string())
    };
    SearchMetadata {
        total_time_ms,
        providers_queried,
        providers_succeeded,
        provider_errors,
        degradation_reason,
        sort_mode: sort_mode.as_str().to_string(),
        pre_filter_results,
        post_filter_results,
        pagination,
        filters_applied: applied_filters(filters),
    }
}

} // verus!
