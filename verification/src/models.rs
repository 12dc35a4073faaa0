//! The data model: loaders, providers, queries, filters, sessions and profile annotations.
use vstd::prelude::*;
use crate::text::{
    fold_ascii, ascii_lower, trim, chars_of, trim_chars, eq_fold, split_chars, unsigned_value, parse_unsigned,
    push_str, string_from_chars,
};
use crate::validation::{split_on, views};
use crate::ids::{is_v4, new_uuid_v4};
use crate::time::{Timestamp, is_before, in_calendar_range, secs_in_calendar, utc_now, MAX_CALENDAR_SECS, SECONDS_PER_DAY};

verus! {

broadcast use vstd::string::group_string_axioms;

/// A mod loader.
#[derive(Debug, Clone, Copy, PartialEq, Eq, Hash, Structural)]
pub enum ModLoader {
    Fabric,
    Forge,
    Quilt,
    NeoForge,
}

/// The loader that `s` names, ignoring the case of ASCII letters. (No character other than an
/// ASCII capital lower-cases to one of the ASCII letters of these names, so this is also the
/// match of the fully lower-cased text.)
pub open spec fn loader_named(s: Seq<char>) -> Option<ModLoader> {
    let f = fold_ascii(s);
    if f == "fabric"@ {
        Some(ModLoader::Fabric)
    } else if f == "forge"@ {
        Some(ModLoader::Forge)
    } else if f == "quilt"@ {
        Some(ModLoader::Quilt)
    } else if f == "neoforge"@ {
        Some(ModLoader::NeoForge)
    } else {
        None
    }
}

impl ModLoader {
    /// The loader named by `s`, case-insensitively.
    pub fn from_str(s: &str) -> (r: Option<ModLoader>)
        ensures
            r == loader_named(s@),
    {
        let v = chars_of(s);
        if eq_fold(v.as_slice(), "fabric") {
            Some(ModLoader::Fabric)
        } else if eq_fold(v.as_slice(), "forge") {
            Some(ModLoader::Forge)
        } else if eq_fold(v.as_slice(), "quilt") {
            Some(ModLoader::Quilt)
        } else if eq_fold(v.as_slice(), "neoforge") {
            Some(ModLoader::NeoForge)
        } else {
            None
        }
    }

    /// The loader's name as written in applied-filter metadata.
    pub fn display_name(&self) -> (s: &'static str)
        ensures
            s@ == loader_display_name(*self),
    {
        match self {
            ModLoader::Fabric => "Fabric",
            ModLoader::Forge => "Forge",
            ModLoader::Quilt => "Quilt",
            ModLoader::NeoForge => "NeoForge",
        }
    }
}

/// The capitalized name of a loader.
pub open spec fn loader_display_name(l: ModLoader) -> Seq<char> {
    match l {
        ModLoader::Fabric => "Fabric"@,
        ModLoader::Forge => "Forge"@,
        ModLoader::Quilt => "Quilt"@,
        ModLoader::NeoForge => "NeoForge"@,
    }
}

/// A mod provider.
#[derive(Debug, Clone, Copy, PartialEq, Eq, Hash, Structural)]
pub enum Provider {
    Modrinth,
    CurseForge,
    GitHub,
    McBaike,
}

/// The lower-case name of a provider.
pub open spec fn provider_name(p: Provider) -> Seq<char> {
    match p {
        Provider::Modrinth => "modrinth"@,
        Provider::CurseForge => "curseforge"@,
        Provider::GitHub => "github"@,
        Provider::McBaike => "mcbaike"@,
    }
}

impl Provider {
    /// The provider's lower-case name.
    pub fn as_str(&self) -> (s: &'static str)
        ensures
            s@ == provider_name(*self),
    {
        match self {
            Provider::Modrinth => "modrinth",
            Provider::CurseForge => "curseforge",
            Provider::GitHub => "github",
            Provider::McBaike => "mcbaike",
        }
    }
}

/// How results are ordered.
#[derive(Debug, Clone, Copy, PartialEq, Eq, Structural)]
pub enum SortMode {
    Relevance,
    UpdateRecencyVersionAware,
    Downloads,
    CreatedDate,
}

impl Default for SortMode {
    fn default() -> (m: SortMode)
        ensures
            m == SortMode::Relevance,
    {
        SortMode::Relevance
    }
}

/// The sort mode that `input` names: trimmed, ASCII case ignored, with the accepted aliases.
pub open spec fn sort_mode_named(input: Seq<char>) -> Option<SortMode> {
    let f = fold_ascii(trim(input));
    if f == "relevance"@ {
        Some(SortMode::Relevance)
    } else if f == "updaterecencyversionaware"@ || f == "update-recency"@ || f
        == "update_recency"@ || f == "update_recency_version_aware"@ || f
        == "update-recency-version-aware"@ {
        Some(SortMode::UpdateRecencyVersionAware)
    } else if f == "downloads"@ {
        Some(SortMode::Downloads)
    } else if f == "created"@ || f == "createddate"@ || f == "created-date"@ || f
        == "created_date"@ {
        Some(SortMode::CreatedDate)
    } else {
        None
    }
}

/// The name of a sort mode.
pub open spec fn sort_mode_name(m: SortMode) -> Seq<char> {
    match m {
        SortMode::Relevance => "Relevance"@,
        SortMode::UpdateRecencyVersionAware => "UpdateRecencyVersionAware"@,
        SortMode::Downloads => "Downloads"@,
        SortMode::CreatedDate => "CreatedDate"@,
    }
}

impl SortMode {
    /// Parses a sort mode name or alias.
    pub fn parse(input: &str) -> (r: Option<SortMode>)
        ensures
            r == sort_mode_named(input@),
    {
        let raw = chars_of(input);
        let t = trim_chars(raw.as_slice());
        let v = t.as_slice();
        if eq_fold(v, "relevance") {
            Some(SortMode::Relevance)
        } else if eq_fold(v, "updaterecencyversionaware") || eq_fold(v, "update-recency")
            || eq_fold(v, "update_recency") || eq_fold(v, "update_recency_version_aware")
            || eq_fold(v, "update-recency-version-aware") {
            Some(SortMode::UpdateRecencyVersionAware)
        } else if eq_fold(v, "downloads") {
            Some(SortMode::Downloads)
        } else if eq_fold(v, "created") || eq_fold(v, "createddate") || eq_fold(
            v,
            "created-date",
        ) || eq_fold(v, "created_date") {
            Some(SortMode::CreatedDate)
        } else {
            None
        }
    }

    /// The mode's name.
    pub fn as_str(&self) -> (s: &'static str)
        ensures
            s@ == sort_mode_name(*self),
    {
        match self {
            SortMode::Relevance => "Relevance",
            SortMode::UpdateRecencyVersionAware => "UpdateRecencyVersionAware",
            SortMode::Downloads => "Downloads",
            SortMode::CreatedDate => "CreatedDate",
        }
    }
}

/// A name made of letters only is read back unchanged by trimming and case folding up to ASCII
/// case.
proof fn lemma_fold_plain(s: Seq<char>)
    requires
        s.len() > 0,
        forall|i: int| 0 <= i < s.len() ==> ('a' <= #[trigger] s[i] <= 'z' || 'A' <= s[i] <= 'Z'),
    ensures
        trim(s) == s,
        fold_ascii(s) == s.map_values(|c: char| ascii_lower(c)),
{
    assert(!crate::text::is_whitespace(s[0]));
    assert(!crate::text::is_whitespace(s.last()));
    assert(crate::text::trim_start(s) == s);
}

/// Every sort mode is read back from its own name.
pub proof fn law_sort_mode_names_round_trip(m: SortMode)
    ensures
        sort_mode_named(sort_mode_name(m)) == Some(m),
{
    reveal_strlit("Relevance");
    reveal_strlit("relevance");
    reveal_strlit("UpdateRecencyVersionAware");
    reveal_strlit("updaterecencyversionaware");
    reveal_strlit("Downloads");
    reveal_strlit("downloads");
    reveal_strlit("CreatedDate");
    reveal_strlit("createddate");
    reveal_strlit("update-recency");
    reveal_strlit("update_recency");
    reveal_strlit("update_recency_version_aware");
    reveal_strlit("update-recency-version-aware");
    reveal_strlit("created");
    let n = sort_mode_name(m);
    lemma_fold_plain(n);
    assert(trim(n) == n);
    match m {
        SortMode::Relevance => {
            assert(fold_ascii(n) =~= "relevance"@);
            assert(fold_ascii(trim(n)) == "relevance"@);
        },
        SortMode::UpdateRecencyVersionAware => {
            assert(fold_ascii(n) =~= "updaterecencyversionaware"@);
            assert(fold_ascii(n).len() != "relevance"@.len());
        },
        SortMode::Downloads => {
            assert(fold_ascii(n) =~= "downloads"@);
            assert(fold_ascii(n)[0] != "relevance"@[0]);
            assert(fold_ascii(n).len() != "updaterecencyversionaware"@.len());
        },
        SortMode::CreatedDate => {
            assert(fold_ascii(n) =~= "createddate"@);
            assert(fold_ascii(n).len() != "relevance"@.len());
            assert(fold_ascii(n).len() != "downloads"@.len());
            assert(fold_ascii(n).len() != "updaterecencyversionaware"@.len());
            assert(fold_ascii(n).len() != "update-recency"@.len());
            assert(fold_ascii(n).len() != "update_recency"@.len());
            assert(fold_ascii(n).len() != "update_recency_version_aware"@.len());
            assert(fold_ascii(n).len() != "update-recency-version-aware"@.len());
            assert(fold_ascii(n).len() != "created"@.len());
        },
    }
}

/// A character that ASCII case folding maps to a lower-case ASCII letter is not white space.
proof fn lemma_letter_not_space(c: char)
    requires
        'a' <= ascii_lower(c) <= 'z',
    ensures
        !crate::text::is_whitespace(c),
{
}

/// Leading white space is trimmed away up to the first character that is not white space.
proof fn lemma_trim_start_padded(a: Seq<char>, t: Seq<char>)
    requires
        forall|i: int| 0 <= i < a.len() ==> crate::text::is_whitespace(#[trigger] a[i]),
        t.len() > 0,
        !crate::text::is_whitespace(t[0]),
    ensures
        crate::text::trim_start(a + t) == t,
    decreases a.len(),
{
    if a.len() == 0 {
        assert(a + t =~= t);
    } else {
        assert((a + t)[0] == a[0]);
        assert((a + t).drop_first() =~= a.drop_first() + t);
        assert forall|i: int| 0 <= i < a.drop_first().len() implies crate::text::is_whitespace(
            #[trigger] a.drop_first()[i],
        ) by {
            assert(a.drop_first()[i] == a[i + 1]);
        }
        lemma_trim_start_padded(a.drop_first(), t);
    }
}

/// Trailing white space is trimmed away back to the last character that is not white space.
proof fn lemma_trim_end_padded(t: Seq<char>, b: Seq<char>)
    requires
        forall|i: int| 0 <= i < b.len() ==> crate::text::is_whitespace(#[trigger] b[i]),
        t.len() > 0,
        !crate::text::is_whitespace(t.last()),
    ensures
        crate::text::trim_end(t + b) == t,
    decreases b.len(),
{
    if b.len() == 0 {
        assert(t + b =~= t);
    } else {
        assert((t + b).last() == b.last());
        assert(crate::text::is_whitespace(b[b.len() - 1]));
        assert((t + b).drop_last() =~= t + b.drop_last());
        assert forall|i: int| 0 <= i < b.drop_last().len() implies crate::text::is_whitespace(
            #[trigger] b.drop_last()[i],
        ) by {
            assert(b.drop_last()[i] == b[i]);
        }
        lemma_trim_end_padded(t, b.drop_last());
    }
}

/// A sort mode is read back from its name whatever white space surrounds it and whatever the
/// case of its letters, as `SortMode::parse` trims its input and ignores case.
pub proof fn law_sort_mode_parse_ignores_case_and_padding(
    m: SortMode,
    a: Seq<char>,
    n: Seq<char>,
    b: Seq<char>,
)
    requires
        forall|i: int| 0 <= i < a.len() ==> crate::text::is_whitespace(#[trigger] a[i]),
        forall|i: int| 0 <= i < b.len() ==> crate::text::is_whitespace(#[trigger] b[i]),
        fold_ascii(n) == fold_ascii(sort_mode_name(m)),
    ensures
        sort_mode_named(a + n + b) == Some(m),
{
    reveal_strlit("Relevance");
    reveal_strlit("UpdateRecencyVersionAware");
    reveal_strlit("Downloads");
    reveal_strlit("CreatedDate");
    law_sort_mode_names_round_trip(m);
    let name = sort_mode_name(m);
    lemma_fold_plain(name);
    assert(n.len() == fold_ascii(n).len());
    assert(name.len() == fold_ascii(name).len());
    let last = n.len() - 1;
    assert(fold_ascii(n)[0] == ascii_lower(n[0]));
    assert(fold_ascii(name)[0] == ascii_lower(name[0]));
    assert(fold_ascii(n)[last] == ascii_lower(n[last]));
    assert(fold_ascii(name)[last] == ascii_lower(name[last]));
    lemma_letter_not_space(n[0]);
    lemma_letter_not_space(n[last]);
    lemma_trim_start_padded(a, n + b);
    assert((n + b)[0] == n[0]);
    assert(a + n + b =~= a + (n + b));
    lemma_trim_end_padded(n, b);
    assert(crate::text::trim(a + n + b) == n);
}

/// Every loader is read back from its display name.
pub proof fn law_loader_names_round_trip(l: ModLoader)
    ensures
        loader_named(loader_display_name(l)) == Some(l),
{
    reveal_strlit("Fabric");
    reveal_strlit("fabric");
    reveal_strlit("Forge");
    reveal_strlit("forge");
    reveal_strlit("Quilt");
    reveal_strlit("quilt");
    reveal_strlit("NeoForge");
    reveal_strlit("neoforge");
    let n = loader_display_name(l);
    match l {
        ModLoader::Fabric => {
            assert(fold_ascii(n) =~= "fabric"@);
        },
        ModLoader::Forge => {
            assert(fold_ascii(n) =~= "forge"@);
            assert(fold_ascii(n).len() != "fabric"@.len());
        },
        ModLoader::Quilt => {
            assert(fold_ascii(n) =~= "quilt"@);
            assert(fold_ascii(n).len() != "fabric"@.len());
            assert(fold_ascii(n)[0] != "forge"@[0]);
        },
        ModLoader::NeoForge => {
            assert(fold_ascii(n) =~= "neoforge"@);
            assert(fold_ascii(n).len() != "fabric"@.len());
            assert(fold_ascii(n).len() != "forge"@.len());
            assert(fold_ascii(n).len() != "quilt"@.len());
        },
    }
}

/// Filters applied to consolidated results.
#[derive(Debug, Clone)]
pub struct SearchFilters {
    pub minecraft_version: Option<String>,
    pub loaders: Vec<ModLoader>,
    pub categories: Vec<String>,
    pub update_recency_window_days: Option<u32>,
    pub min_downloads: Option<u64>,
    pub open_source_only: bool,
}

impl SearchFilters {
    /// No filter at all.
    pub open spec fn is_empty_filters(&self) -> bool {
        &&& self.minecraft_version is None
        &&& self.loaders@.len() == 0
        &&& self.categories@.len() == 0
        &&& self.update_recency_window_days is None
        &&& self.min_downloads is None
        &&& !self.open_source_only
    }
}

impl Default for SearchFilters {
    fn default() -> (f: SearchFilters)
        ensures
            f.is_empty_filters(),
    {
        SearchFilters {
            minecraft_version: None,
            loaders: Vec::new(),
            categories: Vec::new(),
            update_recency_window_days: None,
            min_downloads: None,
            open_source_only: false,
        }
    }
}

/// A search query with its filters, providers and sort mode.
#[derive(Debug, Clone)]
pub struct SearchQueryProfile {
    pub id: u128,
    pub created_at: Timestamp,
    pub keywords: Vec<String>,
    pub filters: SearchFilters,
    pub provider_scope: Vec<Provider>,
    pub sort_mode: SortMode,
    pub session_id: Option<u128>,
    pub user_context: Option<String>,
}

/// Two or three dot-separated pieces, each a value that `u32::from_str` accepts.
pub open spec fn is_version_number(s: Seq<char>) -> bool {
    let parts = split_on(s, '.');
    &&& (parts.len() == 2 || parts.len() == 3)
    &&& forall|i: int|
        0 <= i < parts.len() ==> (#[trigger] unsigned_value(parts[i]) matches Some(n) && n
            <= u32::MAX)
}

/// Message for a query with neither keyword nor filter.
pub open spec fn empty_query_message() -> Seq<char> {
    "Query must have at least one keyword or filter"@
}

/// Message for a query without provider.
pub open spec fn no_provider_message() -> Seq<char> {
    "At least one provider must be specified"@
}

/// Message for a query whose version is not a version number.
pub open spec fn bad_version_message(version: Seq<char>) -> Seq<char> {
    "Invalid Minecraft version format: "@ + version
}

impl SearchQueryProfile {
    /// A query with the given id and creation instant, default filters and sort mode.
    pub fn new_with(id: u128, created_at: Timestamp, keywords: Vec<String>, provider_scope: Vec<
        Provider,
    >) -> (q: SearchQueryProfile)
        ensures
            q.id == id,
            q.created_at == created_at,
            q.keywords == keywords,
            q.provider_scope == provider_scope,
            q.filters.is_empty_filters(),
            q.sort_mode == SortMode::Relevance,
            q.session_id is None,
            q.user_context is None,
    {
        SearchQueryProfile {
            id,
            created_at,
            keywords,
            filters: SearchFilters::default(),
            provider_scope,
            sort_mode: SortMode::default(),
            session_id: None,
            user_context: None,
        }
    }

    /// A new query with a fresh random id, created now.
    pub fn new(keywords: Vec<String>, provider_scope: Vec<Provider>) -> (q: SearchQueryProfile)
        ensures
            is_v4(q.id),
            in_calendar_range(q.created_at),
            q.keywords == keywords,
            q.provider_scope == provider_scope,
            q.filters.is_empty_filters(),
            q.sort_mode == SortMode::Relevance,
            q.session_id is None,
            q.user_context is None,
    {
        let id = new_uuid_v4();
        let now = utc_now();
        Self::new_with(id, now, keywords, provider_scope)
    }

    /// Whether `version` is two or three dot-separated `u32` values.
    fn is_valid_version(version: &str) -> (b: bool)
        ensures
            b == is_version_number(version@),
    {
        let v = chars_of(version);
        let parts = split_chars(v.as_slice(), '.');
        if parts.len() != 2 && parts.len() != 3 {
            return false;
        }
        let mut i: usize = 0;
        while i < parts.len()
            invariant
                i <= parts@.len(),
                parts@.len() == split_on(version@, '.').len(),
                forall|k: int|
                    0 <= k < parts@.len() ==> #[trigger] parts@[k]@ == split_on(version@, '.')[k],
                forall|k: int|
                    0 <= k < i ==> (#[trigger] unsigned_value(split_on(version@, '.')[k]) matches Some(
                        n,
                    ) && n <= u32::MAX),
            decreases parts@.len() - i,
        {
            if parse_unsigned(parts[i].as_slice(), 0xffff_ffff).is_none() {
                assert(parts@[i as int]@ == split_on(version@, '.')[i as int]);
                return false;
            }
            i = i + 1;
        }
        true
    }

    /// Checks that the query has a keyword or a filter (version, loader or category), at least
    /// one provider, and a well-formed version if any.
    pub fn validate(&self) -> (r: Result<(), String>)
        ensures
            ({
                let no_criteria = self.keywords@.len() == 0 && self.filters.minecraft_version is None
                    && self.filters.loaders@.len() == 0 && self.filters.categories@.len() == 0;
                let bad_version = self.filters.minecraft_version matches Some(v)
                    && !is_version_number(v@);
                &&& r is Ok <==> (!no_criteria && self.provider_scope@.len() > 0 && !bad_version)
                &&& r matches Err(m) ==> m@ == (if no_criteria {
                    empty_query_message()
                } else if self.provider_scope@.len() == 0 {
                    no_provider_message()
                } else {
                    bad_version_message(self.filters.minecraft_version->0@)
                })
            }),
    {
        if self.keywords.len() == 0 && self.filters.minecraft_version.is_none()
            && self.filters.loaders.len() == 0 && self.filters.categories.len() == 0 {
            return Err("Query must have at least one keyword or filter".to_string());
        }
        if self.provider_scope.len() == 0 {
            return Err("At least one provider must be specified".to_string());
        }
        match &self.filters.minecraft_version {
            Some(version) => {
                if !Self::is_valid_version(version.as_str()) {
                    let mut m: Vec<char> = Vec::new();
                    push_str(&mut m, "Invalid Minecraft version format: ");
                    push_str(&mut m, version.as_str());
                    return Err(string_from_chars(m.as_slice()));
                }
            },
            None => {},
        }
        Ok(())
    }
}

/// The days a saved session lives.
pub const SESSION_LIFETIME_DAYS: i64 = 30;

/// A saved search session: the query, the shortlisted mods and notes on them.
#[derive(Debug, Clone)]
pub struct SearchSessionSummary {
    pub id: u128,
    pub created_at: Timestamp,
    pub updated_at: Timestamp,
    pub expires_at: Option<Timestamp>,
    pub original_query: SearchQueryProfile,
    pub query_description: Option<String>,
    pub shortlisted_mods: Vec<u128>,
    /// Notes on shortlisted mods; where a mod occurs twice, the later note is the one that counts.
    pub comparison_notes: Vec<(u128, String)>,
    pub search_duration_ms: u64,
    pub providers_used: Vec<Provider>,
    pub total_candidates_found: u32,
    pub shareable_link: Option<String>,
    pub user_identifier: Option<String>,
}

/// Message for a session created after its last update.
pub open spec fn created_after_update_message() -> Seq<char> {
    "Created timestamp cannot be after updated timestamp"@
}

/// Message for a session that expires no later than it was created.
pub open spec fn expiry_message() -> Seq<char> {
    "Expiry must be after creation"@
}

impl SearchSessionSummary {
    /// An empty session for `query` with the given id, created and updated at `now`, expiring 30
    /// days later (which must lie within the calendar).
    pub fn new_with(id: u128, now: Timestamp, query: SearchQueryProfile) -> (s: SearchSessionSummary)
        requires
            in_calendar_range(now),
            secs_in_calendar(now.secs + SESSION_LIFETIME_DAYS * 86400),
        ensures
            s.id == id,
            s.created_at == now,
            s.updated_at == now,
            s.expires_at == Some(
                Timestamp { secs: (now.secs + SESSION_LIFETIME_DAYS * 86400) as i64, nanos: now.nanos },
            ),
            s.original_query == query,
            s.query_description is None,
            s.shortlisted_mods@.len() == 0,
            s.comparison_notes@.len() == 0,
            s.search_duration_ms == 0,
            s.providers_used@.len() == 0,
            s.total_candidates_found == 0,
            s.shareable_link is None,
            s.user_identifier is None,
    {
        SearchSessionSummary {
            id,
            created_at: now,
            updated_at: now,
            expires_at: Some(now.plus_days(SESSION_LIFETIME_DAYS)),
            original_query: query,
            query_description: None,
            shortlisted_mods: Vec::new(),
            comparison_notes: Vec::new(),
            search_duration_ms: 0,
            providers_used: Vec::new(),
            total_candidates_found: 0,
            shareable_link: None,
            user_identifier: None,
        }
    }

    /// A new empty session for `query`, with a fresh random id, created now and expiring 30 days
    /// later. (Where the clock stands within 30 days of the calendar's last second, no expiry can
    /// be represented and the session has none.)
    pub fn new(query: SearchQueryProfile) -> (s: SearchSessionSummary)
        ensures
            is_v4(s.id),
            in_calendar_range(s.created_at),
            s.created_at.secs >= 0,
            s.created_at == s.updated_at,
            secs_in_calendar(s.created_at.secs + SESSION_LIFETIME_DAYS * 86400) ==> s.expires_at
                == Some(
                Timestamp {
                    secs: (s.created_at.secs + SESSION_LIFETIME_DAYS * 86400) as i64,
                    nanos: s.created_at.nanos,
                },
            ),
            !secs_in_calendar(s.created_at.secs + SESSION_LIFETIME_DAYS * 86400) ==> s.expires_at is None,
            s.original_query == query,
            s.query_description is None,
            s.shortlisted_mods@.len() == 0,
            s.comparison_notes@.len() == 0,
            s.search_duration_ms == 0,
            s.providers_used@.len() == 0,
            s.total_candidates_found == 0,
            s.shareable_link is None,
            s.user_identifier is None,
    {
        let id = new_uuid_v4();
        let now = utc_now();
        if now.secs <= MAX_CALENDAR_SECS - SESSION_LIFETIME_DAYS * SECONDS_PER_DAY {
            Self::new_with(id, now, query)
        } else {
            SearchSessionSummary {
                id,
                created_at: now,
                updated_at: now,
                expires_at: None,
                original_query: query,
                query_description: None,
                shortlisted_mods: Vec::new(),
                comparison_notes: Vec::new(),
                search_duration_ms: 0,
                providers_used: Vec::new(),
                total_candidates_found: 0,
                shareable_link: None,
                user_identifier: None,
            }
        }
    }

    /// Checks that the session was not created after its last update and, where it expires,
    /// expires after it was created.
    pub fn validate(&self) -> (r: Result<(), String>)
        ensures
            r is Ok <==> (!is_before(self.updated_at, self.created_at) && (self.expires_at matches Some(
                e,
            ) ==> is_before(self.created_at, e))),
            r matches Err(m) ==> m@ == (if is_before(self.updated_at, self.created_at) {
                created_after_update_message()
            } else {
                expiry_message()
            }),
    {
        if self.updated_at.before(&self.created_at) {
            return Err("Created timestamp cannot be after updated timestamp".to_string());
        }
        match &self.expires_at {
            Some(expires) => {
                if !self.created_at.before(expires) {
                    return Err("Expiry must be after creation".to_string());
                }
            },
            None => {},
        }
        Ok(())
    }
}

/// A new session passes validation: it was last updated when it was created, and it expires
/// thirty days after its creation.
pub proof fn law_new_session_is_valid(s: SearchSessionSummary)
    requires
        in_calendar_range(s.created_at),
        s.created_at == s.updated_at,
        s.expires_at == Some(
            Timestamp {
                secs: (s.created_at.secs + SESSION_LIFETIME_DAYS * 86400) as i64,
                nanos: s.created_at.nanos,
            },
        ),
    ensures
        !is_before(s.updated_at, s.created_at),
        s.expires_at matches Some(e) && is_before(s.created_at, e),
{
}

/// How serious a disagreement between providers is.
#[derive(Debug, Clone, Copy, PartialEq, Eq, Structural)]
pub enum ConflictSeverity {
    Minor,
    Major,
    Critical,
}

/// A field on which providers disagree, with each provider's value.
#[derive(Debug, Clone)]
pub struct MetadataConflict {
    pub field: String,
    pub values: Vec<(String, String)>,
    pub severity: ConflictSeverity,
}

/// Whether a mod works with the requested setup.
#[derive(Debug, Clone)]
pub enum CompatibilityStatus {
    FullyCompatible,
    PartiallyCompatible { issues: Vec<String> },
    Incompatible { reasons: Vec<String> },
}

/// How actively a mod is maintained.
#[derive(Debug, Clone, Copy, PartialEq, Eq, Structural)]
pub enum MaintenanceStatus {
    ActivelyMaintained,
    Maintenance { last_update_days: u32 },
    Abandoned,
    Unknown,
}

/// A risk of adopting a mod.
#[derive(Debug, Clone)]
pub struct RiskFactor {
    pub risk_type: RiskType,
    pub description: String,
    pub severity: RiskSeverity,
}

/// The kind of an adoption risk.
#[derive(Debug, Clone, Copy, PartialEq, Eq, Structural)]
pub enum RiskType {
    LicenseConflict,
    DependencyIssue,
    ProviderDiscrepancy,
    OutdatedVersion,
    LowAdoption,
}

/// The severity of an adoption risk.
#[derive(Debug, Clone, Copy, PartialEq, Eq, Structural)]
pub enum RiskSeverity {
    Low,
    Medium,
    High,
}

/// How two mods relate.
#[derive(Debug, Clone, Copy, PartialEq, Eq, Structural)]
pub enum RelationshipType {
    Dependency,
    OptionalDependency,
    Incompatibility,
    Replacement,
    Complement,
    Successor,
}

/// Where evidence of a relationship comes from.
#[derive(Debug, Clone, Copy, PartialEq, Eq, Structural)]
pub enum EvidenceSource {
    ProviderApi,
    SourceCodeAnalysis,
    CommunityData,
    VersionCompatibility,
}

} // verus!
