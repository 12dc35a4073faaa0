//! The command-line client: argument checks, filters, cache keys and cache freshness, API URLs
//! and comparison notes.
use vstd::prelude::*;
use vstd::utf8::encode_utf8;
use crate::text::{
    trim, chars_of, chars_of_string, trim_chars, string_from_chars, push_str, push_decimal,
    decimal, join_by, join_strings, clone_strings, split_chars,
};
use crate::validation::{views, split_on, non_empty};
use crate::models::{ModLoader, SortMode, SearchFilters as ModelFilters};
use crate::search::{
    ProviderScope, normalized_provider_scope, scope_selects, loaders_from_names,
    trimmed_non_empty, trim_option, model_filters_of, ProviderFailure, severity_labels,
    severity_label, reason_label,
};
use crate::digest::{sha256, sha256_of, hex_lower, to_hex, to_lowercase, lowercase_of, push_bytes};
use crate::order::{sort_strings, str_leq};
use vstd::relations::sorted_by;

verus! {

broadcast use vstd::string::group_string_axioms;

/// The arguments of the `search` command.
#[derive(Debug, Clone)]
pub struct SearchCommandArgs {
    pub query: String,
    pub version: Option<String>,
    pub loaders: Vec<String>,
    pub categories: Vec<String>,
    pub min_downloads: Option<u64>,
    pub open_source_only: bool,
    pub updated_within_days: Option<u32>,
    pub sort: Option<String>,
    pub providers: Vec<String>,
    pub force_refresh: bool,
}

/// A provider failure as the command reports it.
#[derive(Debug, Clone)]
pub struct CliProviderError {
    pub provider: String,
    pub error: String,
    pub severity: String,
    pub reason: String,
    pub timestamp: i64,
}

/// The metadata of a command search result.
#[derive(Debug, Clone)]
pub struct CliSearchMetadata {
    pub total_time_ms: u64,
    pub providers_queried: Vec<String>,
    pub providers_succeeded: Vec<String>,
    pub provider_errors: Vec<CliProviderError>,
    pub degradation_reason: Option<String>,
    pub cached_at: Option<i64>,
    pub expires_at: Option<i64>,
    pub cache_version: Option<String>,
}

/// A provider failure as the command reports it, stamped with `timestamp` (Unix seconds).
pub fn cli_error_at(failure: &ProviderFailure, timestamp: i64) -> (m: CliProviderError)
    ensures
        m.provider@ == failure.provider@,
        m.error@ == failure.error@,
        m.severity@ == severity_label(failure.severity),
        m.reason@ == reason_label(failure.severity),
        m.timestamp == timestamp,
{
    let (severity, reason) = severity_labels(failure.severity);
    CliProviderError {
        provider: failure.provider.clone(),
        error: failure.error.clone(),
        severity: severity.to_string(),
        reason: reason.to_string(),
        timestamp,
    }
}

/// A provider failure as the command reports it, stamped with the current time (Unix seconds).
pub fn failure_to_cli_error(failure: &ProviderFailure) -> (m: CliProviderError)
    ensures
        m.provider@ == failure.provider@,
        m.error@ == failure.error@,
        m.severity@ == severity_label(failure.severity),
        m.reason@ == reason_label(failure.severity),
        crate::time::in_calendar_range(crate::time::Timestamp { secs: m.timestamp, nanos: 0 }),
{
    let now = crate::time::utc_now();
    cli_error_at(failure, now.secs)
}

/// Message for an empty query.
pub open spec fn empty_query_message() -> Seq<char> {
    "Search query cannot be empty"@
}

/// Message for a provider list that names no known provider.
pub open spec fn no_valid_provider_message() -> Seq<char> {
    "No valid providers selected"@
}

/// The checks the `search` command makes before it searches: the trimmed query must not be empty
/// and a known provider must be selected (none named selects both).
pub fn prepare_cli_search(args: &SearchCommandArgs) -> (r: Result<(String, ProviderScope), String>)
    ensures
        ({
            let q = trim(args.query@);
            let m = scope_selects(views(args.providers@), "modrinth"@);
            let c = scope_selects(views(args.providers@), "curseforge"@);
            &&& r is Ok <==> (q.len() > 0 && (m || c))
            &&& r matches Ok(ok) ==> ok.0@ == q && ok.1.modrinth == m && ok.1.curseforge == c
            &&& r matches Err(e) ==> e@ == (if q.len() == 0 {
                empty_query_message()
            } else {
                no_valid_provider_message()
            })
        }),
{
    let v = chars_of_string(&args.query);
    let q = trim_chars(v.as_slice());
    if q.len() == 0 {
        return Err("Search query cannot be empty".to_string());
    }
    let scope = normalized_provider_scope(args.providers.as_slice());
    if !scope.modrinth && !scope.curseforge {
        return Err("No valid providers selected".to_string());
    }
    Ok((string_from_chars(q.as_slice()), scope))
}

/// The model filters for the command's arguments.
pub fn to_model_filters(args: &SearchCommandArgs) -> (f: ModelFilters)
    ensures
        model_filters_of(
            args.version,
            args.loaders@,
            args.categories@,
            args.updated_within_days,
            args.min_downloads,
            args.open_source_only,
            f,
        ),
{
    ModelFilters {
        minecraft_version: trim_option(&args.version),
        loaders: loaders_from_names(args.loaders.as_slice()),
        categories: trimmed_non_empty(args.categories.as_slice()),
        update_recency_window_days: args.updated_within_days,
        min_downloads: args.min_downloads,
        open_source_only: args.open_source_only,
    }
}

/// The selected provider names in sorted order, joined by commas.
pub open spec fn providers_key(scope: ProviderScope) -> Seq<char> {
    if scope.curseforge && scope.modrinth {
        "curseforge,modrinth"@
    } else if scope.curseforge {
        "curseforge"@
    } else if scope.modrinth {
        "modrinth"@
    } else {
        seq![]
    }
}

/// The function `lowercase_of`, as a value.
pub open spec fn lowercaser() -> spec_fn(Seq<char>) -> Seq<char> {
    |s: Seq<char>| lowercase_of(s)
}

/// The values lower-cased, sorted and joined by commas.
pub open spec fn list_key(values: Seq<Seq<char>>) -> Seq<char> {
    join_by(values.map_values(lowercaser()).sort_by(str_leq()), ',')
}

/// The decimal text of an optional number, or `*`.
pub open spec fn number_key(n: Option<nat>) -> Seq<char> {
    match n {
        Some(v) => decimal(v),
        None => "*"@,
    }
}

/// The bytes hashed into a command cache key: the lower-cased query, the version (or `*`), the
/// provider, loader and category keys, the download and recency bounds (or `*`), `1` or `0` for
/// open source only, and the sort text (or `relevance`).
pub open spec fn cache_key_material(query: Seq<char>, args: SearchCommandArgs, scope: ProviderScope) -> Seq<u8> {
    encode_utf8(lowercase_of(query)) + encode_utf8(
        match args.version {
            Some(v) => v@,
            None => "*"@,
        },
    ) + encode_utf8(providers_key(scope)) + encode_utf8(list_key(views(args.loaders@)))
        + encode_utf8(list_key(views(args.categories@))) + encode_utf8(
        number_key(
            match args.min_downloads {
                Some(n) => Some(n as nat),
                None => None,
            },
        ),
    ) + encode_utf8(
        number_key(
            match args.updated_within_days {
                Some(n) => Some(n as nat),
                None => None,
            },
        ),
    ) + encode_utf8(
        if args.open_source_only {
            "1"@
        } else {
            "0"@
        },
    ) + encode_utf8(
        match args.sort {
            Some(s) => s@,
            None => "relevance"@,
        },
    )
}

/// The values lower-cased, sorted and joined by commas.
fn list_key_of(values: &[String]) -> (s: String)
    ensures
        s@ == list_key(views(values@)),
{
    let mut lowered: Vec<String> = Vec::new();
    let mut i: usize = 0;
    while i < values.len()
        invariant
            i <= values@.len(),
            views(lowered@) == views(values@).take(i as int).map_values(lowercaser()),
        decreases values@.len() - i,
    {
        let l = to_lowercase(values[i].as_str());
        let ghost before = views(lowered@);
        assert(l@ == lowercaser()(views(values@)[i as int]));
        lowered.push(l);
        assert(views(values@).take(i + 1).map_values(lowercaser()) =~= views(values@).take(
            i as int,
        ).map_values(lowercaser()).push(lowercaser()(views(values@)[i as int])));
        assert(views(lowered@) =~= before.push(lowered@[i as int]@));
        i = i + 1;
    }
    assert(views(values@).take(values@.len() as int) =~= views(values@));
    let sorted = sort_strings(lowered);
    let r = join_strings(sorted.as_slice(), ',');
    assert(sorted@.map_values(|s: String| s@) =~= views(sorted@));
    r
}

/// The decimal text of an optional number, or `*`.
fn number_key_of(n: Option<u64>) -> (s: String)
    ensures
        s@ == number_key(
            match n {
                Some(v) => Some(v as nat),
                None => None,
            },
        ),
{
    match n {
        Some(v) => {
            let mut c: Vec<char> = Vec::new();
            push_decimal(&mut c, v);
            assert(c@ =~= decimal(v as nat));
            string_from_chars(c.as_slice())
        },
        None => "*".to_string(),
    }
}

/// The cache key of a command search: the lower-case hexadecimal SHA-256 digest of its material.
pub fn cache_key(query: &str, args: &SearchCommandArgs, providers: &ProviderScope) -> (key: String)
    ensures
        key@ == hex_lower(sha256_of(cache_key_material(query@, *args, *providers))),
        key@.len() == 64,
        crate::digest::is_lower_hex(key@),
{
    let mut data: Vec<u8> = Vec::new();
    let q = to_lowercase(query);
    push_bytes(&mut data, q.as_str());
    match &args.version {
        Some(v) => push_bytes(&mut data, v.as_str()),
        None => push_bytes(&mut data, "*"),
    }
    let pk: &str = if providers.curseforge && providers.modrinth {
        "curseforge,modrinth"
    } else if providers.curseforge {
        "curseforge"
    } else if providers.modrinth {
        "modrinth"
    } else {
        ""
    };
    proof {
        reveal_strlit("");
    }
    push_bytes(&mut data, pk);
    let lk = list_key_of(args.loaders.as_slice());
    push_bytes(&mut data, lk.as_str());
    let ck = list_key_of(args.categories.as_slice());
    push_bytes(&mut data, ck.as_str());
    let mk = number_key_of(args.min_downloads);
    push_bytes(&mut data, mk.as_str());
    let days: Option<u64> = match args.updated_within_days {
        Some(d) => Some(d as u64),
        None => None,
    };
    let dk = number_key_of(days);
    push_bytes(&mut data, dk.as_str());
    if args.open_source_only {
        push_bytes(&mut data, "1");
    } else {
        push_bytes(&mut data, "0");
    }
    match &args.sort {
        Some(s) => push_bytes(&mut data, s.as_str()),
        None => push_bytes(&mut data, "relevance"),
    }
    proof {
        assert(data@ =~= cache_key_material(query@, *args, *providers));
    }
    let digest = sha256(data.as_slice());
    to_hex(digest.as_slice())
}

/// Lists that hold the same values once lower-cased, in any order, give the same list key.
proof fn lemma_list_key_permutation(x: Seq<Seq<char>>, y: Seq<Seq<char>>)
    requires
        x.map_values(lowercaser()).to_multiset() == y.map_values(lowercaser()).to_multiset(),
    ensures
        list_key(x) == list_key(y),
{
    crate::order::lemma_lex_total_ordering();
    let lx = x.map_values(lowercaser());
    let ly = y.map_values(lowercaser());
    lx.lemma_sort_by_ensures(str_leq());
    ly.lemma_sort_by_ensures(str_leq());
    vstd::seq_lib::lemma_sorted_unique(lx.sort_by(str_leq()), ly.sort_by(str_leq()), str_leq());
}

/// The cache key of a command search does not depend on the case of the query as far as
/// lower-casing makes it equal, on the order in which loaders and categories are given, nor on
/// their case as far as lower-casing makes them equal: searches that differ only so share their
/// cached results. (Each key is 64 lower-case hexadecimal digits, as `cache_key` states.)
pub proof fn law_cache_key_ignores_list_order(
    q1: Seq<char>,
    q2: Seq<char>,
    a: SearchCommandArgs,
    b: SearchCommandArgs,
    scope: ProviderScope,
)
    requires
        lowercase_of(q1) == lowercase_of(q2),
        crate::search::opt_view(a.version) == crate::search::opt_view(b.version),
        views(a.loaders@).map_values(lowercaser()).to_multiset() == views(b.loaders@).map_values(
            lowercaser(),
        ).to_multiset(),
        views(a.categories@).map_values(lowercaser()).to_multiset() == views(
            b.categories@,
        ).map_values(lowercaser()).to_multiset(),
        a.min_downloads == b.min_downloads,
        a.updated_within_days == b.updated_within_days,
        a.open_source_only == b.open_source_only,
        crate::search::opt_view(a.sort) == crate::search::opt_view(b.sort),
    ensures
        cache_key_material(q1, a, scope) == cache_key_material(q2, b, scope),
        hex_lower(sha256_of(cache_key_material(q1, a, scope))) == hex_lower(
            sha256_of(cache_key_material(q2, b, scope)),
        ),
{
    lemma_list_key_permutation(views(a.loaders@), views(b.loaders@));
    lemma_list_key_permutation(views(a.categories@), views(b.categories@));
    let va: Seq<char> = match a.version {
        Some(v) => v@,
        None => "*"@,
    };
    let vb: Seq<char> = match b.version {
        Some(v) => v@,
        None => "*"@,
    };
    assert(va == vb);
    let sa: Seq<char> = match a.sort {
        Some(s) => s@,
        None => "relevance"@,
    };
    let sb: Seq<char> = match b.sort {
        Some(s) => s@,
        None => "relevance"@,
    };
    assert(sa == sb);
}

/// The names of the providers that a scope selects, Modrinth first.
pub open spec fn selected_provider_names(scope: ProviderScope) -> Seq<Seq<char>> {
    (if scope.modrinth {
        seq!["modrinth"@]
    } else {
        seq![]
    }) + (if scope.curseforge {
        seq!["curseforge"@]
    } else {
        seq![]
    })
}

/// Text of characters below 128 takes one byte per character.
proof fn lemma_ascii_byte_len(s: Seq<char>)
    requires
        forall|i: int| 0 <= i < s.len() ==> (#[trigger] s[i] as u32) <= 0x7F,
    ensures
        crate::text::byte_len(s) == s.len(),
    decreases s.len(),
{
    if s.len() == 0 {
        assert(encode_utf8(s) =~= Seq::<u8>::empty());
    } else {
        let p = s.drop_last();
        assert forall|i: int| 0 <= i < p.len() implies (#[trigger] p[i] as u32) <= 0x7F by {
            assert(p[i] == s[i]);
        }
        lemma_ascii_byte_len(p);
        crate::text::lemma_byte_len_push(p, s.last());
        assert(p.push(s.last()) =~= s);
        assert((s[s.len() - 1] as u32) <= 0x7F);
    }
}

/// The provider part of a command cache key names exactly the providers that the scope selects,
/// sorted and joined by commas; so two searches that differ only in their provider scope never
/// share key material, and never share cached results.
pub proof fn law_providers_key_names_selection(
    query: Seq<char>,
    args: SearchCommandArgs,
    s1: ProviderScope,
    s2: ProviderScope,
)
    ensures
        providers_key(s1) == join_by(selected_provider_names(s1).sort_by(str_leq()), ','),
        s1 != s2 ==> providers_key(s1) != providers_key(s2),
        s1 != s2 ==> cache_key_material(query, args, s1) != cache_key_material(query, args, s2),
{
    reveal_strlit("curseforge,modrinth");
    reveal_strlit("curseforge");
    reveal_strlit("modrinth");
    crate::order::lemma_lex_total_ordering();
    let cf = "curseforge"@;
    let mr = "modrinth"@;
    let sel = selected_provider_names(s1);
    let sorted: Seq<Seq<char>> = if s1.curseforge && s1.modrinth {
        seq![cf, mr]
    } else {
        sel
    };
    assert(crate::order::lex_le(cf, mr));
    assert(sorted_by(sorted, str_leq())) by {
        if s1.curseforge && s1.modrinth {
            assert forall|i: int, j: int| 0 <= i < j < sorted.len() implies #[trigger] str_leq()(
                sorted[i],
                sorted[j],
            ) by {
                assert(i == 0 && j == 1);
            }
        }
    }
    assert(sorted.to_multiset() == sel.to_multiset()) by {
        broadcast use vstd::seq_lib::group_to_multiset_ensures;
        if s1.curseforge && s1.modrinth {
            assert(sel =~= seq![mr].push(cf));
            assert(sorted =~= seq![cf].push(mr));
            assert(seq![mr] =~= Seq::<Seq<char>>::empty().push(mr));
            assert(seq![cf] =~= Seq::<Seq<char>>::empty().push(cf));
            assert(sorted.to_multiset() =~= sel.to_multiset());
        }
    }
    sel.lemma_sort_by_ensures(str_leq());
    vstd::seq_lib::lemma_sorted_unique(sel.sort_by(str_leq()), sorted, str_leq());
    if s1.curseforge && s1.modrinth {
        assert(join_by(sorted, ',') =~= "curseforge,modrinth"@) by {
            assert(sorted.drop_last() =~= seq![cf]);
            assert(join_by(seq![cf], ',') == cf);
            assert(join_by(sorted, ',') == cf + seq![','] + mr);
        }
    } else if s1.curseforge {
        assert(sorted =~= seq![cf]);
    } else if s1.modrinth {
        assert(sorted =~= seq![mr]);
    } else {
        assert(sorted =~= Seq::<Seq<char>>::empty());
    }
    assert(providers_key(s1).len() != providers_key(s2).len() || s1 == s2);
    let k1 = providers_key(s1);
    let k2 = providers_key(s2);
    assert forall|i: int| 0 <= i < k1.len() implies (#[trigger] k1[i] as u32) <= 0x7F by {}
    assert forall|i: int| 0 <= i < k2.len() implies (#[trigger] k2[i] as u32) <= 0x7F by {}
    lemma_ascii_byte_len(k1);
    lemma_ascii_byte_len(k2);
    if s1 != s2 {
        assert(cache_key_material(query, args, s1).len() != cache_key_material(query, args, s2).len());
    }
}

/// The seconds a cached command result stays fresh.
pub const CACHE_TTL_SECONDS: i64 = 7 * 86400;

/// When a cached result was stored, when it expires, and the format version.
#[derive(Debug, Clone)]
pub struct CacheMetadata {
    pub cached_at: i64,
    pub expires_at: i64,
    pub cache_version: String,
}

/// A cached entry may be used at `now` (Unix seconds) only before it expires and when it has the
/// current format version.
pub open spec fn is_fresh(now: i64, expires_at: i64, version: Seq<char>) -> bool {
    now < expires_at && version == "1"@
}

/// Whether a cached entry may be used at `now`.
pub fn cache_entry_fresh(now: i64, expires_at: i64, cache_version: &str) -> (b: bool)
    ensures
        b == is_fresh(now, expires_at, cache_version@),
{
    now < expires_at && crate::text::str_eq(cache_version, "1")
}

/// The metadata of an entry stored at `cached_at` whose lifetime is counted from `now` (Unix
/// seconds): it expires seven days later.
pub fn new_cache_metadata(cached_at: i64, now: i64) -> (m: CacheMetadata)
    requires
        now <= i64::MAX - CACHE_TTL_SECONDS,
    ensures
        m.cached_at == cached_at,
        m.expires_at == now + CACHE_TTL_SECONDS,
        m.cache_version@ == "1"@,
{
    CacheMetadata { cached_at, expires_at: now + CACHE_TTL_SECONDS, cache_version: "1".to_string() }
}

/// An entry stored at `now` may be used at `t` exactly while `t` is less than seven days later,
/// and never where its format version is not the current one.
pub proof fn law_cache_entry_lifetime(cached_at: i64, now: i64, m: CacheMetadata, t: i64, version: Seq<char>)
    requires
        m.cached_at == cached_at,
        m.expires_at == now + CACHE_TTL_SECONDS,
        m.cache_version@ == "1"@,
    ensures
        is_fresh(t, m.expires_at, m.cache_version@) <==> t < now + 7 * 86400,
        version != "1"@ ==> !is_fresh(t, m.expires_at, version),
{
}

/// The API base URL: the argument, else the `MCM_API_BASE_URL` setting, else
/// `http://127.0.0.1:3000`; trailing slashes removed.
pub open spec fn base_url_of(arg: Option<Seq<char>>, setting: Option<Seq<char>>) -> Seq<char> {
    crate::validation::strip_trailing(
        match arg {
            Some(a) => a,
            None => match setting {
                Some(s) => s,
                None => "http://127.0.0.1:3000"@,
            },
        },
        '/',
    )
}

/// The API base URL from the argument and the setting.
pub fn resolve_api_base_url(api_base_url: Option<String>, setting: Option<String>) -> (url: String)
    ensures
        url@ == base_url_of(
            crate::search::opt_view(api_base_url),
            crate::search::opt_view(setting),
        ),
{
    let chosen: String = match api_base_url {
        Some(a) => a,
        None => match setting {
            Some(s) => s,
            None => "http://127.0.0.1:3000".to_string(),
        },
    };
    let v = chars_of_string(&chosen);
    let mut e: usize = v.len();
    assert(v@.take(e as int) =~= v@);
    while e > 0 && v[e - 1] == '/'
        invariant
            e <= v@.len(),
            crate::validation::strip_trailing(v@.take(e as int), '/') == crate::validation::strip_trailing(
                v@,
                '/',
            ),
        decreases e,
    {
        assert(v@.take(e as int).drop_last() =~= v@.take(e - 1));
        e = e - 1;
    }
    let mut out: Vec<char> = Vec::new();
    let mut i: usize = 0;
    while i < e
        invariant
            i <= e <= v@.len(),
            out@ == v@.take(i as int),
        decreases e - i,
    {
        out.push(v[i]);
        assert(out@ =~= v@.take(i + 1));
        i = i + 1;
    }
    string_from_chars(out.as_slice())
}

/// `base` followed by `path` and then `id`.
pub fn api_url(base: &str, path: &str, id: &str) -> (url: String)
    ensures
        url@ == base@ + path@ + id@,
{
    let mut v: Vec<char> = Vec::new();
    push_str(&mut v, base);
    push_str(&mut v, path);
    push_str(&mut v, id);
    string_from_chars(v.as_slice())
}

/// The arguments of the `details` command.
#[derive(Debug, Clone)]
pub struct DetailsCommandArgs {
    pub mod_id: String,
    pub api_base_url: Option<String>,
}

/// The arguments of the `load-session` command.
#[derive(Debug, Clone)]
pub struct LoadSessionCommandArgs {
    pub session_id: String,
    pub api_base_url: Option<String>,
}

/// The arguments of the `save-session` command.
#[derive(Debug, Clone)]
pub struct SaveSessionCommandArgs {
    pub query_id: String,
    pub mod_ids: Vec<String>,
    pub description: Option<String>,
    pub notes: Vec<String>,
    pub api_base_url: Option<String>,
}

/// `field` followed by ` cannot be empty`.
pub open spec fn cannot_be_empty(field: Seq<char>) -> Seq<char> {
    field + " cannot be empty"@
}

/// Refuses an identifier that is empty once trimmed, naming the field.
pub fn require_identifier(value: &str, field: &str) -> (r: Result<(), String>)
    ensures
        r is Ok <==> trim(value@).len() > 0,
        r matches Err(m) ==> m@ == cannot_be_empty(field@),
{
    let v = chars_of(value);
    let t = trim_chars(v.as_slice());
    if t.len() == 0 {
        let mut m: Vec<char> = Vec::new();
        push_str(&mut m, field);
        push_str(&mut m, " cannot be empty");
        return Err(string_from_chars(m.as_slice()));
    }
    Ok(())
}

/// Message for a save without mod ids.
pub open spec fn no_mod_id_message() -> Seq<char> {
    "At least one --mod-id is required"@
}

/// The note `mod_id=text`: both sides trimmed; `None` without an `=`.
pub open spec fn note_of(n: Seq<char>) -> Option<(Seq<char>, Seq<char>)> {
    let parts = split_on(n, '=');
    if parts.len() < 2 {
        None
    } else {
        Some((trim(parts[0]), trim(n.skip(parts[0].len() + 1 as int))))
    }
}

/// The function `note_of`, as a value.
pub open spec fn note_reader() -> spec_fn(Seq<char>) -> Option<(Seq<char>, Seq<char>)> {
    |n: Seq<char>| note_of(n)
}

/// Splits `mod_id=text` at its first `=` and trims both sides.
fn parse_note(n: &str) -> (r: Option<(String, String)>)
    ensures
        match r {
            Some(p) => note_of(n@) == Some((p.0@, p.1@)),
            None => note_of(n@) is None,
        },
{
    let v = chars_of(n);
    let parts = split_chars(v.as_slice(), '=');
    if parts.len() < 2 {
        return None;
    }
    let key_len = parts[0].len();
    let key = trim_chars(parts[0].as_slice());
    let mut rest: Vec<char> = Vec::new();
    proof {
        lemma_split_first_piece(v@, '=');
        assert(parts@[0]@ == split_on(v@, '=')[0]);
    }
    let vlen = v.len();
    let mut i: usize = key_len + 1;
    while i < v.len()
        invariant
            key_len + 1 <= i <= v@.len(),
            rest@ == v@.subrange(key_len + 1, i as int),
        decreases v@.len() - i,
    {
        rest.push(v[i]);
        assert(rest@ =~= v@.subrange(key_len + 1, i + 1));
        i = i + 1;
    }
    assert(rest@ =~= v@.skip(key_len + 1));
    let value = trim_chars(rest.as_slice());
    Some((string_from_chars(key.as_slice()), string_from_chars(value.as_slice())))
}

/// Where `s` has at least two pieces, its first piece is followed by the separator.
proof fn lemma_split_first_piece(s: Seq<char>, sep: char)
    requires
        split_on(s, sep).len() >= 2,
    ensures
        split_on(s, sep)[0].len() + 1 <= s.len(),
        s[split_on(s, sep)[0].len() as int] == sep,
        split_on(s, sep)[0] == s.take(split_on(s, sep)[0].len() as int),
    decreases s.len(),
{
    crate::validation::lemma_split_len(s, sep);
    let prev = split_on(s.drop_last(), sep);
    crate::validation::lemma_split_len(s.drop_last(), sep);
    if prev.len() >= 2 {
        lemma_split_first_piece(s.drop_last(), sep);
        if s.last() == sep {
            assert(split_on(s, sep)[0] == prev[0]);
        } else {
            assert(split_on(s, sep)[0] == prev[0]);
        }
        assert(s.take(prev[0].len() as int) =~= s.drop_last().take(prev[0].len() as int));
    } else {
        assert(s.last() == sep);
        assert(prev.len() == 1);
        lemma_split_no_sep(s.drop_last(), sep);
        assert(s.drop_last() =~= s.take(s.len() - 1));
    }
}

/// A single piece means no separator: the piece is the whole text.
proof fn lemma_split_no_sep(s: Seq<char>, sep: char)
    requires
        split_on(s, sep).len() == 1,
    ensures
        split_on(s, sep)[0] == s,
    decreases s.len(),
{
    if s.len() > 0 {
        crate::validation::lemma_split_len(s.drop_last(), sep);
        lemma_split_no_sep(s.drop_last(), sep);
        assert(split_on(s, sep)[0] =~= s.drop_last().push(s.last()));
        assert(s.drop_last().push(s.last()) =~= s);
    }
}

/// The checks of the `save-session` command and its notes: the query id must not be empty once
/// trimmed and a mod id must be given; each `mod_id=text` note is split at its first `=`, both
/// sides trimmed, and notes without `=` are dropped. (Read as a map, a later note for the same id
/// stands over an earlier one.)
pub fn prepare_save_session(args: &SaveSessionCommandArgs) -> (r: Result<Vec<(String, String)>, String>)
    ensures
        r is Ok <==> (trim(args.query_id@).len() > 0 && args.mod_ids@.len() > 0),
        r matches Err(m) ==> m@ == (if trim(args.query_id@).len() == 0 {
            cannot_be_empty("query_id"@)
        } else {
            no_mod_id_message()
        }),
        r matches Ok(notes) ==> notes@.map_values(|p: (String, String)| (p.0@, p.1@))
            == views(args.notes@).filter_map(note_reader()),
{
    match require_identifier(args.query_id.as_str(), "query_id") {
        Ok(()) => {},
        Err(m) => {
            return Err(m);
        },
    }
    if args.mod_ids.len() == 0 {
        return Err("At least one --mod-id is required".to_string());
    }
    let mut notes: Vec<(String, String)> = Vec::new();
    let mut i: usize = 0;
    while i < args.notes.len()
        invariant
            i <= args.notes@.len(),
            notes@.map_values(|p: (String, String)| (p.0@, p.1@)) == views(args.notes@).take(
                i as int,
            ).filter_map(note_reader()),
        decreases args.notes@.len() - i,
    {
        proof {
            assert(views(args.notes@).take(i + 1).drop_last() =~= views(args.notes@).take(i as int));
            reveal_with_fuel(Seq::filter_map, 1);
        }
        let ghost before = notes@.map_values(|p: (String, String)| (p.0@, p.1@));
        match parse_note(args.notes[i].as_str()) {
            Some(p) => {
                notes.push(p);
                assert(notes@.map_values(|p: (String, String)| (p.0@, p.1@)) =~= before + seq![
                    note_of(args.notes@[i as int]@)->0,
                ]);
            },
            None => {},
        }
        i = i + 1;
    }
    assert(views(args.notes@).take(args.notes@.len() as int) =~= views(args.notes@));
    Ok(notes)
}

} // verus!
