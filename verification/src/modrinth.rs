//! Normalization of Modrinth search hits and project details, the search request parameters,
//! response status handling and the newest release date for a game version.
use vstd::prelude::*;
use vstd::utf8::encode_utf8;
use crate::text::{
    chars_of, chars_of_string, trim, trim_chars, string_from_chars, push_str, byte_len,
    byte_len_exceeds, char_utf8_width, char_width, lemma_byte_len_push, clone_strings,
    parse_unsigned, unsigned_value,
};
use crate::validation::views;
use crate::models::{ModLoader, Provider, loader_named};
use crate::search::{loaders_from_names, loader_reader, opt_view};
use crate::time::{Timestamp, is_before, parse_rfc3339, rfc3339_parse, timestamp_result_view};
use crate::digest::{sha256, sha256_of, hex_lower, to_hex, to_lowercase, lowercase_of, push_bytes};
use crate::order::{sort_strings, str_leq, lex_le};
use vstd::relations::{total_ordering, sorted_by};

verus! {

broadcast use vstd::string::group_string_axioms;

/// An error of a provider request.
#[derive(Debug, Clone)]
pub enum ProviderError {
    RateLimited(u64),
    InvalidResponse(String),
    Unavailable(String),
    AuthenticationFailed(String),
}

/// A search hit as Modrinth sends it.
#[derive(Debug, Clone)]
pub struct ModrinthHit {
    pub project_id: String,
    pub slug: String,
    pub title: String,
    pub description: String,
    pub categories: Vec<String>,
    pub author: String,
    pub downloads: u64,
    pub follows: Option<u64>,
    pub date_created: String,
    pub date_modified: String,
    pub license: Option<String>,
    pub versions: Vec<String>,
    pub loaders: Vec<String>,
}

/// A project's license as Modrinth sends it.
#[derive(Debug, Clone)]
pub struct ModrinthLicense {
    pub id: Option<String>,
    pub name: Option<String>,
}

/// Project details as Modrinth sends them.
#[derive(Debug, Clone)]
pub struct ModrinthProjectDetails {
    pub id: String,
    pub slug: String,
    pub title: String,
    pub description: String,
    pub body: Option<String>,
    pub categories: Vec<String>,
    pub additional_categories: Vec<String>,
    pub team: String,
    pub downloads: u64,
    pub followers: Option<u64>,
    pub published: String,
    pub updated: String,
    pub license: Option<ModrinthLicense>,
    pub versions: Vec<String>,
    pub loaders: Vec<String>,
    pub source_url: Option<String>,
}

/// A mod as one provider describes it, normalized. (Its relevance score is assigned when results
/// are ranked.)
#[derive(Debug, Clone)]
pub struct ProviderResult {
    pub source: Provider,
    pub provider_mod_id: String,
    pub provider_url: String,
    pub name: String,
    pub slug: String,
    pub author: String,
    pub summary: String,
    pub description_html: Option<String>,
    pub supported_versions: Vec<String>,
    pub supported_loaders: Vec<ModLoader>,
    pub downloads: u64,
    pub followers: Option<u64>,
    pub last_updated: Timestamp,
    pub created_at: Timestamp,
    pub categories: Vec<String>,
    pub license: Option<String>,
    pub source_url: Option<String>,
}

/// Whether `c` is alphanumeric as `char::is_alphanumeric` (Unicode `Alphabetic` or `Numeric`)
/// says.
pub uninterp spec fn alphanumeric(c: char) -> bool;

/// Calls `char::is_alphanumeric`. Claimed: the answer is the function `alphanumeric` of the
/// character; which characters it holds for is not stated.
#[verifier::external_body]
fn is_alphanumeric(c: char) -> (b: bool)
    ensures
        b == alphanumeric(c),
{
    c.is_alphanumeric()
}

/// A game version that Modrinth results keep: not empty, made of alphanumeric characters, `.`,
/// `-` and `w`.
pub open spec fn is_listed_version(v: Seq<char>) -> bool {
    v.len() > 0 && forall|i: int|
        0 <= i < v.len() ==> alphanumeric(#[trigger] v[i]) || v[i] == '.' || v[i] == '-' || v[i]
            == 'w'
}

/// Whether `version` is a game version that Modrinth results keep.
pub fn is_valid_version(version: &str) -> (b: bool)
    ensures
        b == is_listed_version(version@),
{
    let v = chars_of(version);
    if v.len() == 0 {
        return false;
    }
    let mut i: usize = 0;
    while i < v.len()
        invariant
            i <= v@.len(),
            v@ == version@,
            forall|j: int|
                0 <= j < i ==> alphanumeric(#[trigger] v@[j]) || v@[j] == '.' || v@[j] == '-'
                    || v@[j] == 'w',
        decreases v@.len() - i,
    {
        let c = v[i];
        if !(is_alphanumeric(c) || c == '.' || c == '-' || c == 'w') {
            return false;
        }
        i = i + 1;
    }
    true
}

/// The predicate `is_listed_version`, as a value.
pub open spec fn listed() -> spec_fn(Seq<char>) -> bool {
    |v: Seq<char>| is_listed_version(v)
}

/// The versions that Modrinth results keep, in order.
pub fn listed_versions(versions: &[String]) -> (out: Vec<String>)
    ensures
        views(out@) == views(versions@).filter(listed()),
{
    let mut out: Vec<String> = Vec::new();
    let mut i: usize = 0;
    while i < versions.len()
        invariant
            i <= versions@.len(),
            views(out@) == views(versions@).take(i as int).filter(listed()),
        decreases versions@.len() - i,
    {
        proof {
            assert(views(versions@).take(i + 1).drop_last() =~= views(versions@).take(i as int));
            reveal_with_fuel(Seq::filter, 1);
        }
        let ghost before = views(out@);
        if is_valid_version(versions[i].as_str()) {
            out.push(versions[i].clone());
            assert(views(out@) =~= before.push(versions@[i as int]@));
        }
        i = i + 1;
    }
    assert(views(versions@).take(versions@.len() as int) =~= views(versions@));
    out
}

/// A description of at most 500 bytes is kept; a longer one is cut after its first 497 bytes and
/// `...` appended.
pub open spec fn summary_of(d: Seq<char>, s: Seq<char>) -> bool {
    if byte_len(d) > 500 {
        exists|k: int| 0 <= k <= d.len() && byte_len(d.take(k)) == 497 && s == d.take(k) + "..."@
    } else {
        s == d
    }
}

/// A description that can be cut after 497 bytes: short enough, or with a character boundary
/// there.
pub open spec fn summary_cuttable(d: Seq<char>) -> bool {
    byte_len(d) > 500 ==> exists|k: int| 0 <= k <= d.len() && byte_len(d.take(k)) == 497
}

proof fn lemma_byte_len_strict(d: Seq<char>, j: int, k: int)
    requires
        0 <= j < k <= d.len(),
    ensures
        byte_len(d.take(j)) < byte_len(d.take(k)),
    decreases k - j,
{
    lemma_byte_len_push(d.take(k - 1), d[k - 1]);
    assert(d.take(k - 1).push(d[k - 1]) =~= d.take(k));
    crate::text::lemma_char_width_pos(d[k - 1]);
    if j < k - 1 {
        lemma_byte_len_strict(d, j, k - 1);
    }
}

/// The summary of a description.
pub fn summarize(description: &String) -> (s: String)
    requires
        summary_cuttable(description@),
    ensures
        summary_of(description@, s@),
{
    let d = chars_of_string(description);
    if !byte_len_exceeds(d.as_slice(), 500) {
        return description.clone();
    }
    let ghost k0 = choose|k: int| 0 <= k <= d@.len() && byte_len(d@.take(k)) == 497;
    let mut out: Vec<char> = Vec::new();
    let mut total: usize = 0;
    let mut i: usize = 0;
    let dlen: usize = d.len();
    assert(d@.take(0) =~= Seq::<char>::empty());
    while total < 497
        invariant
            d@.len() == dlen,
            i <= d@.len(),
            0 <= k0 <= d@.len(),
            byte_len(d@.take(k0)) == 497,
            total == byte_len(d@.take(i as int)),
            total <= 497,
            i <= k0,
            out@ == d@.take(i as int),
        decreases d@.len() - i,
    {
        proof {
            if i == k0 {
                assert(false);
            }
            lemma_byte_len_push(d@.take(i as int), d@[i as int]);
            assert(d@.take(i as int).push(d@[i as int]) =~= d@.take(i + 1));
            if i + 1 < k0 {
                lemma_byte_len_strict(d@, i + 1, k0);
            }
        }
        total = total + char_utf8_width(d[i]);
        out.push(d[i]);
        i = i + 1;
    }
    push_str(&mut out, "...");
    assert(0 <= i <= d@.len() && byte_len(d@.take(i as int)) == 497 && out@ == d@.take(i as int) + "..."@);
    string_from_chars(out.as_slice())
}

/// A summary is never longer than 500 bytes: a description of at most 500 bytes is its own
/// summary, and a longer one gives a summary of exactly 500 bytes.
pub proof fn law_summary_fits(d: Seq<char>, s: Seq<char>)
    requires
        summary_of(d, s),
    ensures
        byte_len(s) <= 500,
        byte_len(d) <= 500 ==> s == d,
        byte_len(d) > 500 ==> byte_len(s) == 500,
{
    if byte_len(d) > 500 {
        let k = choose|k: int|
            0 <= k <= d.len() && byte_len(d.take(k)) == 497 && s == d.take(k) + "..."@;
        crate::text::lemma_byte_len_append(d.take(k), "..."@);
        reveal_strlit("...");
        assert(byte_len("..."@) == 3) by {
            let e = Seq::<char>::empty();
            assert(vstd::utf8::encode_utf8(e) =~= Seq::<u8>::empty());
            lemma_byte_len_push(e, '.');
            lemma_byte_len_push(e.push('.'), '.');
            lemma_byte_len_push(e.push('.').push('.'), '.');
            assert(e.push('.').push('.').push('.') =~= "..."@);
        }
    }
}

/// Whether a description can be summarized: at most 500 bytes, or with a character boundary
/// after its first 497 bytes.
pub fn is_summary_cuttable(description: &String) -> (b: bool)
    ensures
        b == summary_cuttable(description@),
{
    let d = chars_of_string(description);
    if !byte_len_exceeds(d.as_slice(), 500) {
        return true;
    }
    let mut total: usize = 0;
    let mut i: usize = 0;
    assert(d@.take(0) =~= Seq::<char>::empty());
    while total < 497 && i < d.len()
        invariant
            i <= d@.len(),
            total == byte_len(d@.take(i as int)),
            total < 497 + 4,
            forall|k: int| 0 <= k < i ==> byte_len(#[trigger] d@.take(k)) < 497,
        decreases d@.len() - i,
    {
        proof {
            lemma_byte_len_push(d@.take(i as int), d@[i as int]);
            assert(d@.take(i as int).push(d@[i as int]) =~= d@.take(i + 1));
        }
        total = total + char_utf8_width(d[i]);
        i = i + 1;
    }
    proof {
        assert(d@.take(d@.len() as int) =~= d@);
        if total < 497 {
            assert(i == d@.len());
        }
        if total > 497 {
            assert forall|k: int| 0 <= k <= d@.len() implies byte_len(#[trigger] d@.take(k)) != 497 by {
                if k > i {
                    lemma_byte_len_strict(d@, i as int, k);
                }
            }
        }
    }
    total == 497
}

/// The hits that pass their checks but whose description cannot be cut where a summary needs it.
pub open spec fn uncuttable_hit(h: ModrinthHit) -> bool {
    hit_error(h) is None && !summary_cuttable(h.description@)
}

/// Normalizes the hits of a search response and keeps those that pass, as `normalize_hits` does;
/// where some hit passes its checks but its description cannot be cut after 497 bytes (where
/// cutting it would panic), it refuses the whole response and gives `None`.
pub fn normalize_search_hits(hits: Vec<ModrinthHit>) -> (r: Option<Vec<ProviderResult>>)
    ensures
        r is None <==> exists|i: int| 0 <= i < hits@.len() && uncuttable_hit(#[trigger] hits@[i]),
        r matches Some(out) ==> {
            &&& out@.len() == normalized_hits(hits@).len()
            &&& forall|i: int|
                0 <= i < out@.len() ==> normalized_from_hit(
                    normalized_hits(hits@)[i],
                    #[trigger] out@[i],
                )
        },
{
    let mut i: usize = 0;
    while i < hits.len()
        invariant
            i <= hits@.len(),
            forall|j: int| 0 <= j < i ==> !uncuttable_hit(#[trigger] hits@[j]),
        decreases hits@.len() - i,
    {
        if check_hit(&hits[i]).is_ok() && !is_summary_cuttable(&hits[i].description) {
            assert(uncuttable_hit(hits@[i as int]));
            return None;
        }
        i = i + 1;
    }
    assert forall|j: int| 0 <= j < hits@.len() implies (hit_error(#[trigger] hits@[j]) is None
        ==> summary_cuttable(hits@[j].description@)) by {
        assert(!uncuttable_hit(hits@[j]));
    }
    Some(normalize_hits(hits))
}

/// `https://modrinth.com/mod/` followed by the slug.
pub open spec fn project_url(slug: Seq<char>) -> Seq<char> {
    "https://modrinth.com/mod/"@ + slug
}

fn project_url_of(slug: &str) -> (s: String)
    ensures
        s@ == project_url(slug@),
{
    let mut v: Vec<char> = Vec::new();
    push_str(&mut v, "https://modrinth.com/mod/");
    push_str(&mut v, slug);
    string_from_chars(v.as_slice())
}

/// `prefix` followed by the parser's error text.
fn date_error(prefix: &str, detail: &String) -> (e: ProviderError)
    ensures
        e matches ProviderError::InvalidResponse(m) && m@ == prefix@ + detail@,
{
    let mut v: Vec<char> = Vec::new();
    push_str(&mut v, prefix);
    push_str(&mut v, detail.as_str());
    ProviderError::InvalidResponse(string_from_chars(v.as_slice()))
}

/// The message of a hit or project error.
pub open spec fn invalid_response_with(e: ProviderError, m: Seq<char>) -> bool {
    e matches ProviderError::InvalidResponse(t) && t@ == m
}

/// The title of a result is 1 to 100 bytes long.
pub open spec fn title_ok(t: Seq<char>) -> bool {
    t.len() > 0 && byte_len(t) <= 100
}

/// The checks on a hit, in the order they are made, and the message of the first that fails.
pub open spec fn hit_error(h: ModrinthHit) -> Option<Seq<char>> {
    let created = rfc3339_parse(h.date_created@);
    let modified = rfc3339_parse(h.date_modified@);
    if !title_ok(h.title@) {
        Some("Invalid title length"@)
    } else if h.project_id@.len() == 0 {
        Some("Missing project_id"@)
    } else if created is Err {
        Some("Invalid date_created: "@ + created->Err_0)
    } else if modified is Err {
        Some("Invalid date_modified: "@ + modified->Err_0)
    } else if is_before(
        Timestamp { secs: modified->Ok_0.0, nanos: modified->Ok_0.1 },
        Timestamp { secs: created->Ok_0.0, nanos: created->Ok_0.1 },
    ) {
        Some("created_at > last_updated"@)
    } else if views(h.loaders@).filter_map(loader_reader()).len() == 0 {
        Some("No valid loaders"@)
    } else {
        None
    }
}

/// A mapping keeps some element of `s` exactly when it maps some element to a value.
proof fn lemma_filter_map_nonempty<A, B>(s: Seq<A>, f: spec_fn(A) -> Option<B>)
    ensures
        s.filter_map(f).len() > 0 <==> exists|i: int| 0 <= i < s.len() && (#[trigger] f(s[i])) is Some,
    decreases s.len(),
{
    if s.len() > 0 {
        let rest = s.drop_last();
        lemma_filter_map_nonempty(rest, f);
        if exists|i: int| 0 <= i < rest.len() && (#[trigger] f(rest[i])) is Some {
            let i = choose|i: int| 0 <= i < rest.len() && (#[trigger] f(rest[i])) is Some;
            assert(f(s[i]) is Some);
        }
        if exists|i: int| 0 <= i < s.len() && (#[trigger] f(s[i])) is Some {
            let i = choose|i: int| 0 <= i < s.len() && (#[trigger] f(s[i])) is Some;
            if i < s.len() - 1 {
                assert(f(rest[i]) is Some);
            }
        }
    }
}

/// A hit that passes the title, project id and date checks is refused for its loaders exactly when
/// none of its loader names names a known loader, and is accepted otherwise.
pub proof fn law_hit_needs_one_known_loader(h: ModrinthHit)
    requires
        title_ok(h.title@),
        h.project_id@.len() > 0,
        rfc3339_parse(h.date_created@) is Ok,
        rfc3339_parse(h.date_modified@) is Ok,
        !is_before(
            Timestamp {
                secs: rfc3339_parse(h.date_modified@)->Ok_0.0,
                nanos: rfc3339_parse(h.date_modified@)->Ok_0.1,
            },
            Timestamp {
                secs: rfc3339_parse(h.date_created@)->Ok_0.0,
                nanos: rfc3339_parse(h.date_created@)->Ok_0.1,
            },
        ),
    ensures
        hit_error(h) is None <==> exists|i: int|
            0 <= i < h.loaders@.len() && (#[trigger] loader_named(h.loaders@[i]@)) is Some,
        hit_error(h) is Some ==> hit_error(h) == Some("No valid loaders"@),
{
    let names = views(h.loaders@);
    lemma_filter_map_nonempty(names, loader_reader());
    assert forall|i: int| 0 <= i < names.len() implies #[trigger] names[i] == h.loaders@[i]@ by {}
    if exists|i: int| 0 <= i < h.loaders@.len() && (#[trigger] loader_named(h.loaders@[i]@)) is Some {
        let i = choose|i: int|
            0 <= i < h.loaders@.len() && (#[trigger] loader_named(h.loaders@[i]@)) is Some;
        assert(loader_reader()(names[i]) is Some);
    }
    if exists|i: int| 0 <= i < names.len() && (#[trigger] loader_reader()(names[i])) is Some {
        let i = choose|i: int| 0 <= i < names.len() && (#[trigger] loader_reader()(names[i])) is Some;
        assert(loader_named(h.loaders@[i]@) is Some);
    }
}

/// `p` is the normalized form of the hit `h`.
pub open spec fn normalized_from_hit(hit: ModrinthHit, p: ProviderResult) -> bool {
    &&& p.source == Provider::Modrinth
    &&& p.provider_mod_id == hit.project_id
    &&& p.provider_url@ == project_url(hit.slug@)
    &&& p.name == hit.title
    &&& p.slug == hit.slug
    &&& p.author == hit.author
    &&& summary_of(hit.description@, p.summary@)
    &&& p.description_html is None
    &&& views(p.supported_versions@) == views(hit.versions@).filter(listed())
    &&& p.supported_loaders@ == views(hit.loaders@).filter_map(loader_reader())
    &&& p.downloads == hit.downloads
    &&& p.followers == hit.follows
    &&& rfc3339_parse(hit.date_created@) == Ok::<(i64, u32), Seq<char>>(
        (p.created_at.secs, p.created_at.nanos),
    )
    &&& rfc3339_parse(hit.date_modified@) == Ok::<(i64, u32), Seq<char>>(
        (p.last_updated.secs, p.last_updated.nanos),
    )
    &&& p.categories == hit.categories
    &&& p.license == hit.license
    &&& p.source_url is None
}

/// Runs the checks on a hit, in order: a title of 1 to 100 bytes, a project id, RFC 3339
/// creation and modification dates with creation not after modification, and at least one known
/// loader. It gives the two instants and the loaders, or the error of the first check that fails.
pub fn check_hit(hit: &ModrinthHit) -> (r: Result<(Timestamp, Timestamp, Vec<ModLoader>), ProviderError>)
    ensures
        r is Ok <==> hit_error(*hit) is None,
        r matches Err(e) ==> invalid_response_with(e, hit_error(*hit)->0),
        r matches Ok(ok) ==> {
            &&& rfc3339_parse(hit.date_created@) == Ok::<(i64, u32), Seq<char>>(
                (ok.0.secs, ok.0.nanos),
            )
            &&& rfc3339_parse(hit.date_modified@) == Ok::<(i64, u32), Seq<char>>(
                (ok.1.secs, ok.1.nanos),
            )
            &&& ok.2@ == views(hit.loaders@).filter_map(loader_reader())
        },
{
    let tc = chars_of_string(&hit.title);
    if tc.len() == 0 || byte_len_exceeds(tc.as_slice(), 100) {
        return Err(ProviderError::InvalidResponse("Invalid title length".to_string()));
    }
    if hit.project_id.as_str().is_empty() {
        return Err(ProviderError::InvalidResponse("Missing project_id".to_string()));
    }
    let created_at = match parse_rfc3339(hit.date_created.as_str()) {
        Ok(t) => t,
        Err(e) => {
            return Err(date_error("Invalid date_created: ", &e));
        },
    };
    let last_updated = match parse_rfc3339(hit.date_modified.as_str()) {
        Ok(t) => t,
        Err(e) => {
            return Err(date_error("Invalid date_modified: ", &e));
        },
    };
    if last_updated.before(&created_at) {
        return Err(ProviderError::InvalidResponse("created_at > last_updated".to_string()));
    }
    let supported_loaders = loaders_from_names(hit.loaders.as_slice());
    if supported_loaders.len() == 0 {
        return Err(ProviderError::InvalidResponse("No valid loaders".to_string()));
    }
    Ok((created_at, last_updated, supported_loaders))
}

/// Normalizes a search hit: where the checks of `check_hit` pass, versions are filtered, the
/// description summarized and the URL built from the slug. (A description longer than 500 bytes
/// must have a character boundary after its first 497 bytes; cutting it elsewhere would panic.)
pub fn normalize_hit(hit: ModrinthHit) -> (r: Result<ProviderResult, ProviderError>)
    requires
        hit_error(hit) is None ==> summary_cuttable(hit.description@),
    ensures
        r is Ok <==> hit_error(hit) is None,
        r matches Err(e) ==> invalid_response_with(e, hit_error(hit)->0),
        r matches Ok(p) ==> normalized_from_hit(hit, p),
{
    let (created_at, last_updated, supported_loaders) = match check_hit(&hit) {
        Ok(ok) => ok,
        Err(e) => {
            return Err(e);
        },
    };
    let supported_versions = listed_versions(hit.versions.as_slice());
    let summary = summarize(&hit.description);
    let provider_url = project_url_of(hit.slug.as_str());
    Ok(ProviderResult {
        source: Provider::Modrinth,
        provider_mod_id: hit.project_id,
        provider_url,
        name: hit.title,
        slug: hit.slug,
        author: hit.author,
        summary,
        description_html: None,
        supported_versions,
        supported_loaders,
        downloads: hit.downloads,
        followers: hit.follows,
        last_updated,
        created_at,
        categories: hit.categories,
        license: hit.license,
        source_url: None,
    })
}

/// `s` with each run of equal neighbours kept once, as `Vec::dedup` does.
pub open spec fn dedup_seq(s: Seq<Seq<char>>) -> Seq<Seq<char>>
    decreases s.len(),
{
    if s.len() <= 1 {
        s
    } else {
        let prev = dedup_seq(s.drop_last());
        if s.last() == s[s.len() - 2] {
            prev
        } else {
            prev.push(s.last())
        }
    }
}

proof fn lemma_dedup_last(s: Seq<Seq<char>>)
    requires
        s.len() >= 1,
    ensures
        dedup_seq(s).len() >= 1,
        dedup_seq(s).last() == s.last(),
    decreases s.len(),
{
    if s.len() > 1 {
        lemma_dedup_last(s.drop_last());
    }
}

/// The strings with each run of equal neighbours kept once.
pub fn dedup_strings(v: Vec<String>) -> (out: Vec<String>)
    ensures
        views(out@) == dedup_seq(views(v@)),
{
    let mut out: Vec<String> = Vec::new();
    let mut i: usize = 0;
    while i < v.len()
        invariant
            i <= v@.len(),
            views(out@) == dedup_seq(views(v@).take(i as int)),
            i > 0 ==> out@.len() > 0 && out@.last()@ == v@[i - 1]@,
        decreases v@.len() - i,
    {
        let ghost t = views(v@).take(i + 1);
        proof {
            assert(t.drop_last() =~= views(v@).take(i as int));
            if i > 0 {
                assert(t[t.len() - 2] == v@[i - 1]@);
            }
        }
        let ghost before = views(out@);
        if i == 0 || out[out.len() - 1] != v[i] {
            out.push(v[i].clone());
            assert(views(out@) =~= before.push(v@[i as int]@));
            if i == 0 {
                assert(t =~= seq![v@[0]@]);
            }
        }
        i = i + 1;
    }
    assert(views(v@).take(v@.len() as int) =~= views(v@));
    out
}

/// Each string comes before the next in code-point order, and none occurs twice.
pub open spec fn strictly_sorted(s: Seq<Seq<char>>) -> bool {
    forall|i: int, j: int| 0 <= i < j < s.len() ==> #[trigger] lex_le(s[i], s[j]) && s[i] != s[j]
}

/// Deduplicating keeps exactly the strings that occur.
proof fn lemma_dedup_contains(s: Seq<Seq<char>>, x: Seq<char>)
    ensures
        dedup_seq(s).contains(x) <==> s.contains(x),
    decreases s.len(),
{
    if s.len() > 1 {
        let p = s.drop_last();
        lemma_dedup_contains(p, x);
        let dp = dedup_seq(p);
        let d = dedup_seq(s);
        assert(s =~= p.push(s.last()));
        assert(s.contains(x) <==> (p.contains(x) || x == s.last())) by {
            if s.contains(x) {
                let i = choose|i: int| 0 <= i < s.len() && s[i] == x;
                if i < s.len() - 1 {
                    assert(p[i] == x);
                }
            }
            if p.contains(x) {
                let i = choose|i: int| 0 <= i < p.len() && p[i] == x;
                assert(s[i] == x);
            }
            if x == s.last() {
                assert(s[s.len() - 1] == x);
            }
        }
        if s.last() == s[s.len() - 2] {
            assert(d == dp);
            if x == s.last() {
                assert(p[p.len() - 1] == x);
                assert(p.contains(x));
            }
        } else {
            assert(d == dp.push(s.last()));
            assert(d.contains(x) <==> (dp.contains(x) || x == s.last())) by {
                if d.contains(x) {
                    let i = choose|i: int| 0 <= i < d.len() && d[i] == x;
                    if i < dp.len() {
                        assert(dp[i] == x);
                    }
                }
                if dp.contains(x) {
                    let i = choose|i: int| 0 <= i < dp.len() && dp[i] == x;
                    assert(d[i] == x);
                }
                if x == s.last() {
                    assert(d[dp.len() as int] == x);
                }
            }
        }
    }
}

/// Deduplicating a sorted sequence leaves it strictly sorted.
proof fn lemma_dedup_sorted(s: Seq<Seq<char>>)
    requires
        sorted_by(s, str_leq()),
        total_ordering(str_leq()),
    ensures
        strictly_sorted(dedup_seq(s)),
    decreases s.len(),
{
    if s.len() > 1 {
        let p = s.drop_last();
        assert(sorted_by(p, str_leq())) by {
            assert forall|i: int, j: int| 0 <= i < j < p.len() implies #[trigger] str_leq()(p[i], p[j]) by {
                assert(str_leq()(s[i], s[j]));
            }
        }
        lemma_dedup_sorted(p);
        lemma_dedup_last(p);
        let d = dedup_seq(p);
        let a = s[s.len() - 2];
        let b = s.last();
        assert(d.last() == a);
        assert(str_leq()(s[s.len() - 2], s[s.len() - 1]));
        assert(lex_le(a, b));
        if b != a {
            let e = d.push(b);
            assert(dedup_seq(s) == e);
            assert forall|i: int, j: int| 0 <= i < j < e.len() implies #[trigger] lex_le(e[i], e[j])
                && e[i] != e[j] by {
                if j < d.len() {
                    assert(e[i] == d[i] && e[j] == d[j]);
                    assert(lex_le(d[i], d[j]) && d[i] != d[j]);
                } else {
                    let x = d[i];
                    assert(e[i] == x && e[j] == b);
                    if i < d.len() - 1 {
                        assert(lex_le(d[i], d[d.len() - 1]));
                        assert(str_leq()(x, a));
                    } else {
                        assert(x == a);
                        assert(str_leq()(a, a));
                    }
                    assert(str_leq()(x, a));
                    assert(str_leq()(a, b));
                    assert(str_leq()(x, b));
                    if x == b {
                        assert(str_leq()(b, a));
                        assert(a == b);
                    }
                }
            }
        }
    }
}

/// The categories of normalized project details are in code-point order, none twice, and they
/// are exactly the categories and additional categories of the project.
pub proof fn law_project_categories(categories: Seq<Seq<char>>, additional: Seq<Seq<char>>)
    ensures
        strictly_sorted(dedup_seq((categories + additional).sort_by(str_leq()))),
        forall|x: Seq<char>|
            #[trigger] dedup_seq((categories + additional).sort_by(str_leq())).contains(x) <==> (
            categories.contains(x) || additional.contains(x)),
{
    let all = categories + additional;
    crate::order::lemma_lex_total_ordering();
    all.lemma_sort_by_ensures(str_leq());
    lemma_dedup_sorted(all.sort_by(str_leq()));
    assert forall|x: Seq<char>|
        #[trigger] dedup_seq(all.sort_by(str_leq())).contains(x) <==> (categories.contains(x)
            || additional.contains(x)) by {
        lemma_dedup_contains(all.sort_by(str_leq()), x);
        vstd::seq_lib::to_multiset_contains(all, x);
        vstd::seq_lib::to_multiset_contains(all.sort_by(str_leq()), x);
        if categories.contains(x) {
            let i = choose|i: int| 0 <= i < categories.len() && categories[i] == x;
            assert(all[i] == x);
        }
        if additional.contains(x) {
            let i = choose|i: int| 0 <= i < additional.len() && additional[i] == x;
            assert(all[categories.len() + i] == x);
        }
        if all.contains(x) {
            let i = choose|i: int| 0 <= i < all.len() && all[i] == x;
            if i < categories.len() {
                assert(categories[i] == x);
            } else {
                assert(additional[i - categories.len()] == x);
            }
        }
    }
}

/// The license of a project: its id, else its name.
pub open spec fn license_of(l: Option<ModrinthLicense>) -> Option<Seq<char>> {
    match l {
        Some(x) => match x.id {
            Some(i) => Some(i@),
            None => opt_view(x.name),
        },
        None => None,
    }
}

/// The checks on project details, in the order they are made, and the message of the first
/// that fails.
pub open spec fn project_error(p: ModrinthProjectDetails) -> Option<Seq<char>> {
    let published = rfc3339_parse(p.published@);
    let updated = rfc3339_parse(p.updated@);
    if !title_ok(p.title@) {
        Some("Invalid title length"@)
    } else if published is Err {
        Some("Invalid published date: "@ + published->Err_0)
    } else if updated is Err {
        Some("Invalid updated date: "@ + updated->Err_0)
    } else if views(p.loaders@).filter_map(loader_reader()).len() == 0 {
        Some("No valid loaders"@)
    } else {
        None
    }
}

/// Project details whose title and dates pass are refused for their loaders exactly when none of
/// their loader names names a known loader, and are accepted otherwise.
pub proof fn law_project_needs_one_known_loader(p: ModrinthProjectDetails)
    requires
        title_ok(p.title@),
        rfc3339_parse(p.published@) is Ok,
        rfc3339_parse(p.updated@) is Ok,
    ensures
        project_error(p) is None <==> exists|i: int|
            0 <= i < p.loaders@.len() && (#[trigger] loader_named(p.loaders@[i]@)) is Some,
        project_error(p) is Some ==> project_error(p) == Some("No valid loaders"@),
{
    let names = views(p.loaders@);
    lemma_filter_map_nonempty(names, loader_reader());
    assert forall|i: int| 0 <= i < names.len() implies #[trigger] names[i] == p.loaders@[i]@ by {}
    if exists|i: int| 0 <= i < p.loaders@.len() && (#[trigger] loader_named(p.loaders@[i]@)) is Some {
        let i = choose|i: int|
            0 <= i < p.loaders@.len() && (#[trigger] loader_named(p.loaders@[i]@)) is Some;
        assert(loader_reader()(names[i]) is Some);
    }
    if exists|i: int| 0 <= i < names.len() && (#[trigger] loader_reader()(names[i])) is Some {
        let i = choose|i: int| 0 <= i < names.len() && (#[trigger] loader_reader()(names[i])) is Some;
        assert(loader_named(p.loaders@[i]@) is Some);
    }
}

/// `p` is the normalized form of the project details `project`.
pub open spec fn normalized_project_fields(project: ModrinthProjectDetails, p: ProviderResult) -> bool {
    &&& p.source == Provider::Modrinth
    &&& p.provider_mod_id == project.id
    &&& p.provider_url@ == project_url(project.slug@)
    &&& p.name == project.title
    &&& p.slug == project.slug
    &&& p.author == project.team
    &&& summary_of(project.description@, p.summary@)
    &&& p.description_html == project.body
    &&& views(p.supported_versions@) == views(project.versions@).filter(listed())
    &&& p.supported_loaders@ == views(project.loaders@).filter_map(loader_reader())
    &&& p.downloads == project.downloads
    &&& p.followers == project.followers
    &&& rfc3339_parse(project.published@) == Ok::<(i64, u32), Seq<char>>(
        (p.created_at.secs, p.created_at.nanos),
    )
    &&& rfc3339_parse(project.updated@) == Ok::<(i64, u32), Seq<char>>(
        (p.last_updated.secs, p.last_updated.nanos),
    )
    &&& views(p.categories@) == dedup_seq(
        (views(project.categories@) + views(project.additional_categories@)).sort_by(
            str_leq(),
        ),
    )
    &&& opt_view(p.license) == license_of(project.license)
    &&& p.source_url == project.source_url
}

/// Runs the checks on project details, in order: a title of 1 to 100 bytes, RFC 3339 publication
/// and update dates, and at least one known loader. It gives the two instants and the loaders, or
/// the error of the first check that fails.
pub fn check_project(project: &ModrinthProjectDetails) -> (r: Result<
    (Timestamp, Timestamp, Vec<ModLoader>),
    ProviderError,
>)
    ensures
        r is Ok <==> project_error(*project) is None,
        r matches Err(e) ==> invalid_response_with(e, project_error(*project)->0),
        r matches Ok(ok) ==> {
            &&& rfc3339_parse(project.published@) == Ok::<(i64, u32), Seq<char>>(
                (ok.0.secs, ok.0.nanos),
            )
            &&& rfc3339_parse(project.updated@) == Ok::<(i64, u32), Seq<char>>(
                (ok.1.secs, ok.1.nanos),
            )
            &&& ok.2@ == views(project.loaders@).filter_map(loader_reader())
        },
{
    let tc = chars_of_string(&project.title);
    if tc.len() == 0 || byte_len_exceeds(tc.as_slice(), 100) {
        return Err(ProviderError::InvalidResponse("Invalid title length".to_string()));
    }
    let created_at = match parse_rfc3339(project.published.as_str()) {
        Ok(t) => t,
        Err(e) => {
            return Err(date_error("Invalid published date: ", &e));
        },
    };
    let last_updated = match parse_rfc3339(project.updated.as_str()) {
        Ok(t) => t,
        Err(e) => {
            return Err(date_error("Invalid updated date: ", &e));
        },
    };
    let supported_loaders = loaders_from_names(project.loaders.as_slice());
    if supported_loaders.len() == 0 {
        return Err(ProviderError::InvalidResponse("No valid loaders".to_string()));
    }
    Ok((created_at, last_updated, supported_loaders))
}

/// Normalizes project details: where the checks of `check_project` pass, versions are filtered,
/// the description summarized, the categories and additional categories merged, sorted and
/// deduplicated, the license taken by id or else name. (A description longer than 500 bytes must
/// have a character boundary after its first 497 bytes; cutting it elsewhere would panic.)
pub fn normalize_project(project: ModrinthProjectDetails) -> (r: Result<ProviderResult, ProviderError>)
    requires
        project_error(project) is None ==> summary_cuttable(project.description@),
    ensures
        r is Ok <==> project_error(project) is None,
        r matches Err(e) ==> invalid_response_with(e, project_error(project)->0),
        r matches Ok(p) ==> normalized_project_fields(project, p),
{
    let (created_at, last_updated, supported_loaders) = match check_project(&project) {
        Ok(ok) => ok,
        Err(e) => {
            return Err(e);
        },
    };
    let supported_versions = listed_versions(project.versions.as_slice());
    let summary = summarize(&project.description);
    let license = match project.license {
        Some(l) => match l.id {
            Some(i) => Some(i),
            None => l.name,
        },
        None => None,
    };
    let mut categories = project.categories;
    let mut extra = project.additional_categories;
    let ghost c0 = views(categories@);
    let ghost e0 = views(extra@);
    categories.append(&mut extra);
    assert(views(categories@) =~= c0 + e0);
    let categories = dedup_strings(sort_strings(categories));
    let provider_url = project_url_of(project.slug.as_str());
    Ok(ProviderResult {
        source: Provider::Modrinth,
        provider_mod_id: project.id,
        provider_url,
        name: project.title,
        slug: project.slug,
        author: project.team,
        summary,
        description_html: project.body,
        supported_versions,
        supported_loaders,
        downloads: project.downloads,
        followers: project.followers,
        last_updated,
        created_at,
        categories,
        license,
        source_url: project.source_url,
    })
}

/// Normalizes project details as `normalize_project` does, where its description can be cut
/// after 497 bytes or it fails its checks; otherwise (where cutting it would panic) it gives `None`.
pub fn normalize_project_details(project: ModrinthProjectDetails) -> (r: Option<
    Result<ProviderResult, ProviderError>,
>)
    ensures
        r is None <==> (project_error(project) is None && !summary_cuttable(project.description@)),
        r matches Some(res) ==> (res is Ok <==> project_error(project) is None),
        r matches Some(Err(e)) ==> invalid_response_with(e, project_error(project)->0),
        r matches Some(Ok(p)) ==> normalized_project_fields(project, p),
{
    if check_project(&project).is_ok() && !is_summary_cuttable(&project.description) {
        return None;
    }
    Some(normalize_project(project))
}

/// The hits that normalize, in order.
pub open spec fn normalized_hits(hits: Seq<ModrinthHit>) -> Seq<ModrinthHit> {
    hits.filter(|h: ModrinthHit| hit_error(h) is None)
}

/// Normalizes the hits of a search response and keeps those that pass.
pub fn normalize_hits(hits: Vec<ModrinthHit>) -> (out: Vec<ProviderResult>)
    requires
        forall|i: int|
            0 <= i < hits@.len() ==> (hit_error(#[trigger] hits@[i]) is None ==> summary_cuttable(
                hits@[i].description@,
            )),
    ensures
        out@.len() == normalized_hits(hits@).len(),
        forall|i: int|
            0 <= i < out@.len() ==> normalized_from_hit(normalized_hits(hits@)[i], #[trigger] out@[i]),
{
    let mut out: Vec<ProviderResult> = Vec::new();
    let mut i: usize = 0;
    let ghost hs = hits@;
    let mut rest = hits;
    let ghost mut taken: Seq<ModrinthHit> = seq![];
    while rest.len() > 0
        invariant
            hs == taken + rest@,
            forall|j: int|
                0 <= j < rest@.len() ==> (hit_error(#[trigger] rest@[j]) is None ==> summary_cuttable(
                    rest@[j].description@,
                )),
            out@.len() == normalized_hits(taken).len(),
            forall|j: int|
                0 <= j < out@.len() ==> normalized_from_hit(normalized_hits(taken)[j], #[trigger] out@[j]),
        decreases rest@.len(),
    {
        let ghost r0 = rest@;
        let hit = rest.remove(0);
        assert(hit == r0[0]);
        let ghost t0 = taken;
        proof {
            taken = t0.push(r0[0]);
            assert(taken.drop_last() =~= t0);
            reveal_with_fuel(Seq::filter, 1);
            assert(hs =~= taken + rest@);
            assert forall|j: int| 0 <= j < rest@.len() implies (hit_error(#[trigger] rest@[j]) is None
                ==> summary_cuttable(rest@[j].description@)) by {
                assert(rest@[j] == r0[j + 1]);
            }
        }
        let ghost before = out@;
        match normalize_hit(hit) {
            Ok(p) => {
                out.push(p);
                assert forall|j: int| 0 <= j < out@.len() implies normalized_from_hit(normalized_hits(taken)[j], #[trigger] out@[j]) by {
                    if j < before.len() {
                        assert(out@[j] == before[j]);
                    }
                }
            },
            Err(_) => {},
        }
    }
    assert(taken =~= hs);
    out
}

/// The bytes hashed into a Modrinth search cache key: `modrinth`, the trimmed lower-cased query
/// and the version, or `*`.
pub open spec fn search_key_material(query: Seq<char>, version: Option<Seq<char>>) -> Seq<u8> {
    encode_utf8("modrinth"@) + encode_utf8(lowercase_of(trim(query))) + encode_utf8(
        match version {
            Some(v) => v,
            None => "*"@,
        },
    )
}

/// The provider cache key of a Modrinth search.
pub fn search_cache_key(query: &str, minecraft_version: Option<&str>) -> (key: String)
    ensures
        key@ == hex_lower(sha256_of(search_key_material(query@, opt_str(minecraft_version)))),
        key@.len() == 64,
        crate::digest::is_lower_hex(key@),
{
    let mut data: Vec<u8> = Vec::new();
    push_bytes(&mut data, "modrinth");
    let qc = chars_of(query);
    let t = string_from_chars(trim_chars(qc.as_slice()).as_slice());
    let lowered = to_lowercase(t.as_str());
    push_bytes(&mut data, lowered.as_str());
    match minecraft_version {
        Some(v) => push_bytes(&mut data, v),
        None => push_bytes(&mut data, "*"),
    }
    assert(data@ =~= search_key_material(query@, opt_str(minecraft_version)));
    let digest = sha256(data.as_slice());
    to_hex(digest.as_slice())
}

/// The view of an optional text.
pub open spec fn opt_str(v: Option<&str>) -> Option<Seq<char>> {
    match v {
        Some(s) => Some(s@),
        None => None,
    }
}

/// The query parameters of a Modrinth search: the query, a limit of 50, and a version facet
/// where the version is one that results keep.
pub open spec fn search_params_of(query: Seq<char>, version: Option<Seq<char>>) -> Seq<(Seq<char>, Seq<char>)> {
    let base = seq![("query"@, query), ("limit"@, "50"@)];
    match version {
        Some(v) => if is_listed_version(v) {
            base.push(("facets"@, "[[\"versions:"@ + v + "\"]]"@))
        } else {
            base
        },
        None => base,
    }
}

/// The query parameters of a Modrinth search.
pub fn search_params(query: &str, minecraft_version: Option<&str>) -> (params: Vec<(String, String)>)
    ensures
        params@.map_values(|p: (String, String)| (p.0@, p.1@)) == search_params_of(
            query@,
            opt_str(minecraft_version),
        ),
{
    let mut params: Vec<(String, String)> = Vec::new();
    params.push(("query".to_string(), string_from_chars(chars_of(query).as_slice())));
    params.push(("limit".to_string(), "50".to_string()));
    match minecraft_version {
        Some(v) => {
            if is_valid_version(v) {
                let mut f: Vec<char> = Vec::new();
                push_str(&mut f, "[[\"versions:");
                push_str(&mut f, v);
                push_str(&mut f, "\"]]");
                params.push(("facets".to_string(), string_from_chars(f.as_slice())));
            }
        },
        None => {},
    }
    assert(params@.map_values(|p: (String, String)| (p.0@, p.1@)) =~= search_params_of(
        query@,
        opt_str(minecraft_version),
    ));
    params
}

/// The seconds to wait that a rate-limited response asks for: the `Retry-After` header read as
/// an unsigned integer, else 60.
pub open spec fn retry_after_of(header: Option<Seq<char>>) -> u64 {
    match header {
        Some(h) => match unsigned_value(h) {
            Some(n) => if n <= u64::MAX {
                n as u64
            } else {
                60
            },
            None => 60,
        },
        None => 60,
    }
}

/// The error a Modrinth response status means, if any.
pub fn check_status(status: u16, retry_after: Option<&str>, status_text: &str) -> (r: Result<(), ProviderError>)
    ensures
        status == 429 ==> (r matches Err(ProviderError::RateLimited(s)) && s == retry_after_of(
            opt_str(retry_after),
        )),
        status != 429 && !(200 <= status <= 299) ==> (r matches Err(ProviderError::Unavailable(m))
            && m@ == "Modrinth API returned status "@ + status_text@),
        200 <= status <= 299 ==> r is Ok,
{
    if status == 429 {
        let secs = match retry_after {
            Some(h) => match parse_unsigned(chars_of(h).as_slice(), u64::MAX) {
                Some(n) => n,
                None => 60,
            },
            None => 60,
        };
        return Err(ProviderError::RateLimited(secs));
    }
    if !(200 <= status && status <= 299) {
        let mut m: Vec<char> = Vec::new();
        push_str(&mut m, "Modrinth API returned status ");
        push_str(&mut m, status_text);
        return Err(ProviderError::Unavailable(string_from_chars(m.as_slice())));
    }
    Ok(())
}

/// Whether the newest release for a version is looked up at all: both the mod id and the version
/// must be non-empty once trimmed.
pub fn should_lookup_versions(mod_id: &str, minecraft_version: &str) -> (b: bool)
    ensures
        b == (trim(mod_id@).len() > 0 && trim(minecraft_version@).len() > 0),
{
    let a = trim_chars(chars_of(mod_id).as_slice());
    let b = trim_chars(chars_of(minecraft_version).as_slice());
    a.len() > 0 && b.len() > 0
}

/// The latest of the publication dates of the releases that support the version and whose date
/// parses; ties keep the later release.
pub open spec fn latest_release(releases: Seq<(bool, Seq<char>)>) -> Option<Timestamp>
    decreases releases.len(),
{
    if releases.len() == 0 {
        None
    } else {
        let prev = latest_release(releases.drop_last());
        let (supported, date) = releases.last();
        if supported && rfc3339_parse(date) is Ok {
            let (secs, nanos) = rfc3339_parse(date)->Ok_0;
            let t = Timestamp { secs, nanos };
            match prev {
                Some(cur) => if is_before(t, cur) {
                    Some(cur)
                } else {
                    Some(t)
                },
                None => Some(t),
            }
        } else {
            prev
        }
    }
}

/// The publication instant of a release that supports the version and whose date parses.
pub open spec fn release_time(r: (bool, Seq<char>)) -> Option<Timestamp> {
    if r.0 && rfc3339_parse(r.1) is Ok {
        Some(Timestamp { secs: rfc3339_parse(r.1)->Ok_0.0, nanos: rfc3339_parse(r.1)->Ok_0.1 })
    } else {
        None
    }
}

/// The latest release date is the date of one of the releases that support the version and whose
/// date parses, and none of them is later; where there is no such release there is none.
pub proof fn law_latest_release_is_newest(rs: Seq<(bool, Seq<char>)>)
    ensures
        latest_release(rs) is None <==> forall|i: int| 0 <= i < rs.len() ==> (#[trigger] release_time(rs[i])) is None,
        latest_release(rs) matches Some(t) ==> exists|i: int|
            0 <= i < rs.len() && #[trigger] release_time(rs[i]) == Some(t),
        latest_release(rs) matches Some(t) ==> forall|i: int|
            0 <= i < rs.len() && (#[trigger] release_time(rs[i])) is Some ==> !is_before(
                t,
                release_time(rs[i])->0,
            ),
    decreases rs.len(),
{
    if rs.len() > 0 {
        let prev = rs.drop_last();
        law_latest_release_is_newest(prev);
        assert forall|i: int| 0 <= i < prev.len() implies prev[i] == rs[i] by {}
        let last = rs.last();
        assert(rs[rs.len() - 1] == last);
        if let Some(t) = latest_release(rs) {
            if release_time(last) is Some && latest_release(rs) == release_time(last) {
                assert(release_time(rs[rs.len() - 1]) == Some(t));
            } else {
                let i = choose|i: int| 0 <= i < prev.len() && #[trigger] release_time(prev[i]) == Some(t);
                assert(release_time(rs[i]) == Some(t));
            }
        }
        if latest_release(rs) is None {
            assert forall|i: int| 0 <= i < rs.len() implies (#[trigger] release_time(rs[i])) is None by {
                if i < rs.len() - 1 {
                    assert(rs[i] == prev[i]);
                }
            }
        }
        if latest_release(rs) is Some {
            let t = latest_release(rs)->0;
            assert forall|i: int| 0 <= i < rs.len() && (#[trigger] release_time(rs[i])) is Some implies !is_before(
                t,
                release_time(rs[i])->0,
            ) by {
                if i < rs.len() - 1 {
                    assert(rs[i] == prev[i]);
                }
            }
        }
    }
}

/// The latest publication date among the releases that support the requested version.
pub fn latest_release_date(releases: &[(bool, String)]) -> (r: Option<Timestamp>)
    ensures
        r == latest_release(releases@.map_values(|p: (bool, String)| (p.0, p.1@))),
{
    let ghost rs = releases@.map_values(|p: (bool, String)| (p.0, p.1@));
    let mut latest: Option<Timestamp> = None;
    let mut i: usize = 0;
    while i < releases.len()
        invariant
            i <= releases@.len(),
            rs == releases@.map_values(|p: (bool, String)| (p.0, p.1@)),
            latest == latest_release(rs.take(i as int)),
        decreases releases@.len() - i,
    {
        proof {
            assert(rs.take(i + 1).drop_last() =~= rs.take(i as int));
            assert(rs.take(i + 1).last() == (releases@[i as int].0, releases@[i as int].1@));
        }
        if releases[i].0 {
            match parse_rfc3339(releases[i].1.as_str()) {
                Ok(t) => {
                    latest = match latest {
                        Some(cur) => if t.before(&cur) {
                            Some(cur)
                        } else {
                            Some(t)
                        },
                        None => Some(t),
                    };
                },
                Err(_) => {},
            }
        }
        i = i + 1;
    }
    assert(rs.take(releases@.len() as int) =~= rs);
    latest
}

} // verus!
