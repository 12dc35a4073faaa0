//! Validation and normalization of user supplied request values.
use vstd::prelude::*;
use crate::text::{
    sanitize, sanitize_text, byte_len, byte_len_exceeds, chars_of_string, chars_of, push_str,
    push_decimal, decimal, string_from_chars, is_ascii_digit, char_is_ascii_digit,
};
use crate::ids::{uuid_from_text, parse_uuid_text, uuid_text};

verus! {

broadcast use vstd::string::group_string_axioms;

/// The most keywords a search may carry.
pub const MAX_KEYWORDS: usize = 10;

/// The most bytes a keyword may hold.
pub const MAX_KEYWORD_LEN: usize = 64;

/// The character sequences of a sequence of strings.
pub open spec fn views(v: Seq<String>) -> Seq<Seq<char>> {
    v.map_values(|s: String| s@)
}

/// The predicate that keeps non-empty sequences.
pub open spec fn non_empty() -> spec_fn(Seq<char>) -> bool {
    |w: Seq<char>| w.len() > 0
}

/// The function `sanitize`, as a value.
pub open spec fn sanitizer() -> spec_fn(Seq<char>) -> Seq<char> {
    |v: Seq<char>| sanitize(v)
}

/// Each value sanitized, the values that become empty dropped.
pub open spec fn clean_list(vs: Seq<Seq<char>>) -> Seq<Seq<char>> {
    vs.map_values(sanitizer()).filter(non_empty())
}

/// Some value of `vs` is longer than `max_len` bytes.
pub open spec fn any_longer(vs: Seq<Seq<char>>, max_len: nat) -> bool {
    exists|i: int| 0 <= i < vs.len() && byte_len(#[trigger] vs[i]) > max_len
}

proof fn lemma_clean_step(vs: Seq<Seq<char>>, i: int)
    requires
        0 <= i < vs.len(),
    ensures
        clean_list(vs.take(i + 1)) == (if sanitize(vs[i]).len() > 0 {
            clean_list(vs.take(i)).push(sanitize(vs[i]))
        } else {
            clean_list(vs.take(i))
        }),
{
    let m1 = vs.take(i + 1).map_values(sanitizer());
    assert(m1.drop_last() =~= vs.take(i).map_values(sanitizer()));
    assert(m1.last() == sanitize(vs[i]));
    reveal_with_fuel(Seq::filter, 1);
}

/// Sanitizes every value and keeps those that are not empty.
pub fn clean_strings(values: &[String]) -> (out: Vec<String>)
    ensures
        views(out@) == clean_list(views(values@)),
{
    let mut out: Vec<String> = Vec::new();
    let mut i: usize = 0;
    while i < values.len()
        invariant
            i <= values@.len(),
            views(out@) == clean_list(views(values@).take(i as int)),
        decreases values@.len() - i,
    {
        proof {
            lemma_clean_step(views(values@), i as int);
        }
        let s = sanitize_text(values[i].as_str());
        let ghost before = views(out@);
        if !s.as_str().is_empty() {
            out.push(s);
            assert(views(out@) =~= before.push(out@.last()@));
        }
        i = i + 1;
    }
    assert(views(values@).take(values@.len() as int) =~= views(values@));
    out
}

/// Whether some value is longer than `max_len` bytes.
pub fn some_longer(values: &Vec<String>, max_len: usize) -> (b: bool)
    ensures
        b == any_longer(views(values@), max_len as nat),
{
    let mut i: usize = 0;
    while i < values.len()
        invariant
            i <= values@.len(),
            forall|j: int| 0 <= j < i ==> byte_len(#[trigger] views(values@)[j]) <= max_len,
        decreases values@.len() - i,
    {
        let cs = chars_of_string(&values[i]);
        if byte_len_exceeds(cs.as_slice(), max_len) {
            assert(byte_len(views(values@)[i as int]) > max_len);
            return true;
        }
        i = i + 1;
    }
    false
}

/// Validation message for a keyword count out of range.
pub open spec fn keyword_count_message() -> Seq<char> {
    "keywords must contain between 1 and 10 non-empty values"@
}

/// Validation message for an over-long keyword.
pub open spec fn keyword_length_message() -> Seq<char> {
    "each keyword must be 64 characters or fewer"@
}

/// Sanitizes the keywords and drops empty ones; there must be between 1 and 10 left, each of at
/// most 64 bytes.
pub fn validate_keywords(keywords: &[String]) -> (r: Result<Vec<String>, String>)
    ensures
        ({
            let clean = clean_list(views(keywords@));
            &&& r is Ok <==> (1 <= clean.len() <= MAX_KEYWORDS && !any_longer(
                clean,
                MAX_KEYWORD_LEN as nat,
            ))
            &&& r matches Ok(v) ==> views(v@) == clean
            &&& r matches Err(m) ==> m@ == (if clean.len() == 0 || clean.len() > MAX_KEYWORDS {
                keyword_count_message()
            } else {
                keyword_length_message()
            })
        }),
{
    let sanitized = clean_strings(keywords);
    if sanitized.len() == 0 || sanitized.len() > MAX_KEYWORDS {
        return Err("keywords must contain between 1 and 10 non-empty values".to_string());
    }
    if some_longer(&sanitized, MAX_KEYWORD_LEN) {
        return Err("each keyword must be 64 characters or fewer".to_string());
    }
    Ok(sanitized)
}

/// `field` followed by the message that it holds more than `max_items` values.
pub open spec fn too_many_message(field: Seq<char>, max_items: nat) -> Seq<char> {
    field + " supports at most "@ + decimal(max_items) + " values"@
}

/// `field` followed by the message that its values exceed `max_len` characters.
pub open spec fn values_too_long_message(field: Seq<char>, max_len: nat) -> Seq<char> {
    field + " values must be "@ + decimal(max_len) + " characters or fewer"@
}

fn message3(a: &str, n: usize, b: &str, c: &str) -> (out: String)
    ensures
        out@ == a@ + b@ + decimal(n as nat) + c@,
{
    let mut v: Vec<char> = Vec::new();
    push_str(&mut v, a);
    push_str(&mut v, b);
    push_decimal(&mut v, n as u64);
    push_str(&mut v, c);
    string_from_chars(v.as_slice())
}

/// Sanitizes the values and drops empty ones; at most `max_items` may be left, each of at most
/// `max_item_len` bytes.
pub fn sanitize_string_list(values: &[String], field_name: &str, max_items: usize, max_item_len: usize)
    -> (r: Result<Vec<String>, String>)
    ensures
        ({
            let clean = clean_list(views(values@));
            &&& r is Ok <==> (clean.len() <= max_items && !any_longer(clean, max_item_len as nat))
            &&& r matches Ok(v) ==> views(v@) == clean
            &&& r matches Err(m) ==> m@ == (if clean.len() > max_items {
                too_many_message(field_name@, max_items as nat)
            } else {
                values_too_long_message(field_name@, max_item_len as nat)
            })
        }),
{
    let sanitized = clean_strings(values);
    if sanitized.len() > max_items {
        return Err(message3(field_name, max_items, " supports at most ", " values"));
    }
    if some_longer(&sanitized, max_item_len) {
        return Err(message3(field_name, max_item_len, " values must be ", " characters or fewer"));
    }
    Ok(sanitized)
}

/// `s` with all trailing `+` removed.
pub open spec fn strip_plus(s: Seq<char>) -> Seq<char>
    decreases s.len(),
{
    if s.len() > 0 && s.last() == '+' {
        strip_plus(s.drop_last())
    } else {
        s
    }
}

/// `s` without a trailing `.x` or `.X`.
pub open spec fn strip_x(s: Seq<char>) -> Seq<char> {
    if s.len() >= 2 && s[s.len() - 2] == '.' && (s.last() == 'x' || s.last() == 'X') {
        s.take(s.len() - 2)
    } else {
        s
    }
}

/// The pieces of `s` between occurrences of `sep`, as `str::split` yields them.
pub open spec fn split_on(s: Seq<char>, sep: char) -> Seq<Seq<char>>
    decreases s.len(),
{
    if s.len() == 0 {
        seq![seq![]]
    } else {
        let prev = split_on(s.drop_last(), sep);
        if s.last() == sep {
            prev.push(seq![])
        } else {
            prev.update(prev.len() - 1, prev.last().push(s.last()))
        }
    }
}

/// A non-empty run of ASCII digits.
pub open spec fn is_number(p: Seq<char>) -> bool {
    p.len() > 0 && forall|j: int| 0 <= j < p.len() ==> is_ascii_digit(#[trigger] p[j])
}

/// Two or three dot-separated numbers, after dropping trailing `+` and then a `.x`/`.X`.
pub open spec fn is_minecraft_version(s: Seq<char>) -> bool {
    let parts = split_on(strip_x(strip_plus(s)), '.');
    &&& (parts.len() == 2 || parts.len() == 3)
    &&& forall|i: int| 0 <= i < parts.len() ==> is_number(#[trigger] parts[i])
}

pub proof fn lemma_split_len(s: Seq<char>, sep: char)
    ensures
        split_on(s, sep).len() >= 1,
    decreases s.len(),
{
    if s.len() > 0 {
        lemma_split_len(s.drop_last(), sep);
    }
}

/// Whether the dot-separated pieces of `v` are two or three numbers.
fn dotted_numbers(v: &[char], end: usize) -> (b: bool)
    requires
        end <= v@.len(),
    ensures
        b == ({
            let parts = split_on(v@.take(end as int), '.');
            (parts.len() == 2 || parts.len() == 3) && forall|i: int|
                0 <= i < parts.len() ==> is_number(#[trigger] parts[i])
        }),
{
    let mut dots: usize = 0;
    let mut cur_len: usize = 0;
    let mut done_ok = true;
    let mut cur_digits = true;
    let mut i: usize = 0;
    proof {
        assert(v@.take(0) =~= Seq::<char>::empty());
    }
    while i < end
        invariant
            i <= end <= v@.len(),
            ({
                let p = split_on(v@.take(i as int), '.');
                &&& p.len() == dots + 1
                &&& p.last().len() == cur_len
                &&& done_ok == (forall|k: int| 0 <= k < p.len() - 1 ==> is_number(#[trigger] p[k]))
                &&& cur_digits == (forall|j: int|
                    0 <= j < p.last().len() ==> is_ascii_digit(#[trigger] p.last()[j]))
            }),
            dots <= i,
            cur_len <= i,
        decreases end - i,
    {
        let c = v[i];
        let ghost p = split_on(v@.take(i as int), '.');
        proof {
            lemma_split_len(v@.take(i as int), '.');
            assert(v@.take(i + 1).drop_last() =~= v@.take(i as int));
        }
        if c == '.' {
            let seg_ok = cur_len > 0 && cur_digits;
            proof {
                let p2 = p.push(seq![]);
                assert(split_on(v@.take(i + 1), '.') == p2);
                assert(seg_ok == is_number(p.last()));
                assert((forall|k: int| 0 <= k < p2.len() - 1 ==> is_number(#[trigger] p2[k])) == (
                done_ok && seg_ok)) by {
                    if done_ok && seg_ok {
                        assert forall|k: int| 0 <= k < p2.len() - 1 implies is_number(
                            #[trigger] p2[k],
                        ) by {
                            if k < p.len() - 1 {
                                assert(p2[k] == p[k]);
                            } else {
                                assert(p2[k] == p.last());
                            }
                        }
                    }
                    if !done_ok {
                        let k = choose|k: int| 0 <= k < p.len() - 1 && !is_number(#[trigger] p[k]);
                        assert(p2[k] == p[k]);
                    }
                    if !seg_ok {
                        assert(p2[p.len() - 1] == p.last());
                    }
                }
            }
            done_ok = done_ok && seg_ok;
            dots = dots + 1;
            cur_len = 0;
            cur_digits = true;
        } else {
            proof {
                let p2 = p.update(p.len() - 1, p.last().push(c));
                assert(split_on(v@.take(i + 1), '.') == p2);
                assert forall|k: int| 0 <= k < p2.len() - 1 implies p2[k] == p[k] by {}
                assert(p2.last() == p.last().push(c));
            }
            let d = char_is_ascii_digit(c);
            proof {
                let p2 = p.update(p.len() - 1, p.last().push(c));
                assert((cur_digits && d) == (forall|j: int|
                    0 <= j < p2.last().len() ==> is_ascii_digit(#[trigger] p2.last()[j]))) by {
                    if cur_digits && d {
                        assert forall|j: int| 0 <= j < p2.last().len() implies is_ascii_digit(
                            #[trigger] p2.last()[j],
                        ) by {
                            if j < p.last().len() {
                                assert(p2.last()[j] == p.last()[j]);
                            }
                        }
                    }
                    if !cur_digits {
                        let j = choose|j: int|
                            0 <= j < p.last().len() && !is_ascii_digit(#[trigger] p.last()[j]);
                        assert(p2.last()[j] == p.last()[j]);
                    }
                    if !d {
                        assert(p2.last()[p.last().len() as int] == c);
                    }
                }
            }
            cur_digits = cur_digits && d;
            cur_len = cur_len + 1;
        }
        i = i + 1;
    }
    let res = (dots == 1 || dots == 2) && done_ok && cur_len > 0 && cur_digits;
    proof {
        let p = split_on(v@.take(end as int), '.');
        lemma_split_len(v@.take(end as int), '.');
        if res {
            assert forall|k: int| 0 <= k < p.len() implies is_number(#[trigger] p[k]) by {
                if k == p.len() - 1 {
                    assert(p[k] == p.last());
                }
            }
        } else {
            if (dots == 1 || dots == 2) {
                if !done_ok {
                    let k = choose|k: int| 0 <= k < p.len() - 1 && !is_number(#[trigger] p[k]);
                } else {
                    assert(p[p.len() - 1] == p.last());
                    assert(!is_number(p[p.len() - 1]));
                }
            }
        }
    }
    res
}

proof fn lemma_strip_plus_take(s: Seq<char>, e: int)
    requires
        0 < e <= s.len(),
        s[e - 1] == '+',
    ensures
        strip_plus(s.take(e)) == strip_plus(s.take(e - 1)),
{
    assert(s.take(e).drop_last() =~= s.take(e - 1));
}

/// Whether the characters `v` are two or three dot-separated numbers, once trailing `+` and then a
/// `.x` or `.X` are dropped.
fn version_shape_ok(v: &[char]) -> (b: bool)
    ensures
        b == is_minecraft_version(v@),
{
    let mut e: usize = v.len();
    assert(v@.take(e as int) =~= v@);
    while e > 0 && v[e - 1] == '+'
        invariant
            e <= v@.len(),
            strip_plus(v@.take(e as int)) == strip_plus(v@),
        decreases e,
    {
        proof {
            lemma_strip_plus_take(v@, e as int);
        }
        e = e - 1;
    }
    assert(strip_plus(v@.take(e as int)) == v@.take(e as int));
    if e >= 2 && v[e - 2] == '.' && (v[e - 1] == 'x' || v[e - 1] == 'X') {
        assert(strip_x(v@.take(e as int)) =~= v@.take(e - 2));
        e = e - 2;
    } else {
        assert(strip_x(v@.take(e as int)) == v@.take(e as int));
    }
    dotted_numbers(v, e)
}

/// Whether `version` is two or three dot-separated numbers, once trailing `+` and then a `.x` or
/// `.X` are dropped.
pub fn is_valid_minecraft_version(version: &str) -> (b: bool)
    ensures
        b == is_minecraft_version(version@),
{
    let v = chars_of(version);
    version_shape_ok(v.as_slice())
}

/// A character that a Minecraft version may hold: an ASCII digit, `.`, `+`, `x` or `X`.
pub open spec fn version_char(c: char) -> bool {
    is_ascii_digit(c) || c == '.' || c == '+' || c == 'x' || c == 'X'
}

/// Message for an over-long Minecraft version.
pub open spec fn version_length_message() -> Seq<char> {
    "minecraft_version must be 20 characters or fewer"@
}

/// Message for a Minecraft version with a character outside its alphabet.
pub open spec fn version_chars_message() -> Seq<char> {
    "minecraft_version must only contain digits, dots, optional x-range, or + suffix"@
}

/// Message for a Minecraft version of the wrong shape.
pub open spec fn version_format_message() -> Seq<char> {
    "minecraft_version must match format like 1.20, 1.20.1, 1.20.x, or 1.20+"@
}

/// Sanitizes an optional Minecraft version: absent or empty gives `None`; otherwise it must be at
/// most 20 bytes, made of digits, `.`, `+`, `x`, `X`, and shaped like `1.20`, `1.20.1`, `1.20.x`
/// or `1.20+`.
#[verifier::loop_isolation(false)]
pub fn validate_minecraft_version(version: Option<&str>) -> (r: Result<Option<String>, String>)
    ensures
        version is None ==> r == Ok::<Option<String>, String>(None),
        version matches Some(v) ==> ({
            let s = sanitize(v@);
            let all_chars = forall|j: int| 0 <= j < s.len() ==> version_char(#[trigger] s[j]);
            &&& s.len() == 0 ==> r == Ok::<Option<String>, String>(None)
            &&& s.len() > 0 ==> {
                &&& r is Ok <==> (byte_len(s) <= 20 && all_chars && is_minecraft_version(s))
                &&& r matches Ok(o) ==> (o matches Some(t) && t@ == s)
                &&& r matches Err(m) ==> m@ == (if byte_len(s) > 20 {
                    version_length_message()
                } else if !all_chars {
                    version_chars_message()
                } else {
                    version_format_message()
                })
            }
        }),
{
    let text = match version {
        None => {
            return Ok(None);
        },
        Some(v) => v,
    };
    let sanitized = sanitize_text(text);
    let cs = chars_of_string(&sanitized);
    if cs.len() == 0 {
        return Ok(None);
    }
    if byte_len_exceeds(cs.as_slice(), 20) {
        return Err("minecraft_version must be 20 characters or fewer".to_string());
    }
    let mut i: usize = 0;
    while i < cs.len()
        invariant
            i <= cs@.len(),
            forall|j: int| 0 <= j < i ==> version_char(#[trigger] cs@[j]),
        decreases cs@.len() - i,
    {
        let c = cs[i];
        if !(char_is_ascii_digit(c) || c == '.' || c == '+' || c == 'x' || c == 'X') {
            assert(!version_char(cs@[i as int]));
            return Err(
                "minecraft_version must only contain digits, dots, optional x-range, or + suffix".to_string(),
            );
        }
        i = i + 1;
    }
    if !version_shape_ok(cs.as_slice()) {
        return Err(
            "minecraft_version must match format like 1.20, 1.20.1, 1.20.x, or 1.20+".to_string(),
        );
    }
    Ok(Some(sanitized))
}

/// `field` followed by the message that it exceeds `max_len` characters.
pub open spec fn text_too_long_message(field: Seq<char>, max_len: nat) -> Seq<char> {
    field + " must be "@ + decimal(max_len) + " characters or fewer"@
}

/// Sanitizes an optional text: absent or empty gives `None`; otherwise it must be at most
/// `max_len` bytes.
pub fn sanitize_optional_text(value: Option<&str>, field_name: &str, max_len: usize) -> (r: Result<
    Option<String>,
    String,
>)
    ensures
        value is None ==> r == Ok::<Option<String>, String>(None),
        value matches Some(v) ==> ({
            let s = sanitize(v@);
            &&& s.len() == 0 ==> r == Ok::<Option<String>, String>(None)
            &&& s.len() > 0 ==> {
                &&& r is Ok <==> byte_len(s) <= max_len
                &&& r matches Ok(o) ==> (o matches Some(t) && t@ == s)
                &&& r matches Err(m) ==> m@ == text_too_long_message(field_name@, max_len as nat)
            }
        }),
{
    let value = match value {
        None => {
            return Ok(None);
        },
        Some(v) => v,
    };
    let sanitized = sanitize_text(value);
    let cs = chars_of_string(&sanitized);
    if cs.len() == 0 {
        return Ok(None);
    }
    if byte_len_exceeds(cs.as_slice(), max_len) {
        return Err(message3(field_name, max_len, " must be ", " characters or fewer"));
    }
    Ok(Some(sanitized))
}

/// `field` followed by the message that it is not a valid UUID.
pub open spec fn invalid_uuid_message(field: Seq<char>) -> Seq<char> {
    field + " must be a valid UUID (xxxxxxxx-xxxx-xxxx-xxxx-xxxxxxxxxxxx)"@
}

/// Parses a UUID; the error names the field.
pub fn parse_uuid(value: &str, field_name: &str) -> (r: Result<u128, String>)
    ensures
        r is Ok <==> uuid_from_text(value@) is Some,
        r matches Ok(u) ==> uuid_from_text(value@) == Some(u),
        r matches Err(m) ==> m@ == invalid_uuid_message(field_name@),
        forall|u: u128| #[trigger] crate::ids::uuid_text(u) == value@ ==> r == Ok::<u128, String>(u),
{
    match parse_uuid_text(value) {
        Some(u) => Ok(u),
        None => {
            let mut v: Vec<char> = Vec::new();
            push_str(&mut v, field_name);
            push_str(&mut v, " must be a valid UUID (xxxxxxxx-xxxx-xxxx-xxxx-xxxxxxxxxxxx)");
            Err(string_from_chars(v.as_slice()))
        },
    }
}

/// `field[index]` followed by the message that it is not a valid UUID.
pub open spec fn invalid_uuid_at_message(field: Seq<char>, index: nat) -> Seq<char> {
    field + "["@ + decimal(index) + "] must be a valid UUID (xxxxxxxx-xxxx-xxxx-xxxx-xxxxxxxxxxxx)"@
}

/// The UUID texts of `vs` all parse.
pub open spec fn all_uuids(vs: Seq<Seq<char>>) -> bool {
    forall|i: int| 0 <= i < vs.len() ==> (#[trigger] uuid_from_text(vs[i])) is Some
}

/// `t` is the hyphenated lower-case text of some UUID.
pub open spec fn is_uuid_text(t: Seq<char>) -> bool {
    exists|u: u128| #[trigger] uuid_text(u) == t
}

/// Index `i` holds the first UUID text of `vs` that does not parse.
pub open spec fn first_bad_uuid_at(vs: Seq<Seq<char>>, i: int) -> bool {
    0 <= i < vs.len() && uuid_from_text(vs[i]) is None && all_uuids(vs.take(i))
}

/// The message `parse_uuid_list` fails with, if any.
pub open spec fn uuid_list_error(vs: Seq<Seq<char>>, field: Seq<char>, max_items: nat) -> Option<Seq<char>> {
    if vs.len() > max_items {
        Some(too_many_message(field, max_items))
    } else if all_uuids(vs) {
        None
    } else {
        Some(invalid_uuid_at_message(field, (choose|i: int| first_bad_uuid_at(vs, i)) as nat))
    }
}

/// Parses at most `max_items` UUIDs; the first one that does not parse is named by its index.
#[verifier::loop_isolation(false)]
pub fn parse_uuid_list(values: &[String], field_name: &str, max_items: usize) -> (r: Result<
    Vec<u128>,
    String,
>)
    ensures
        ({
            let vs = views(values@);
            &&& r is Ok <==> (vs.len() <= max_items && all_uuids(vs))
            &&& r matches Ok(ids) ==> ids@.len() == vs.len() && forall|i: int|
                0 <= i < vs.len() ==> uuid_from_text(#[trigger] vs[i]) == Some(ids@[i])
            &&& r matches Err(m) ==> if vs.len() > max_items {
                m@ == too_many_message(field_name@, max_items as nat)
            } else {
                exists|i: int|
                    0 <= i < vs.len() && uuid_from_text(#[trigger] vs[i]) is None && all_uuids(
                        vs.take(i),
                    ) && m@ == invalid_uuid_at_message(field_name@, i as nat)
            }
            &&& r is Ok <==> uuid_list_error(vs, field_name@, max_items as nat) is None
            &&& r matches Err(m) ==> uuid_list_error(vs, field_name@, max_items as nat) == Some(m@)
            &&& (vs.len() <= max_items && forall|i: int|
                0 <= i < vs.len() ==> is_uuid_text(#[trigger] vs[i])) ==> r is Ok
            &&& r matches Ok(ids) ==> forall|i: int, u: u128|
                #![trigger uuid_text(u), vs[i]]
                0 <= i < vs.len() && uuid_text(u) == vs[i] ==> ids@[i] == u
        }),
{
    if values.len() > max_items {
        return Err(message3(field_name, max_items, " supports at most ", " values"));
    }
    let mut ids: Vec<u128> = Vec::new();
    let mut i: usize = 0;
    while i < values.len()
        invariant
            i <= values@.len(),
            ids@.len() == i,
            forall|j: int|
                0 <= j < i ==> uuid_from_text(#[trigger] views(values@)[j]) == Some(ids@[j]),
            forall|j: int, u: u128|
                #![trigger uuid_text(u), views(values@)[j]]
                0 <= j < i && uuid_text(u) == views(values@)[j] ==> ids@[j] == u,
        decreases values@.len() - i,
    {
        let ghost vi = views(values@)[i as int];
        assert(values@[i as int]@ == vi);
        match parse_uuid_text(values[i].as_str()) {
            Some(u) => {
                let ghost before = ids@;
                ids.push(u);
                assert forall|j: int, w: u128|
                    #![trigger uuid_text(w), views(values@)[j]]
                    0 <= j < i + 1 && uuid_text(w) == views(values@)[j] implies ids@[j] == w by {
                    if j < i {
                        assert(ids@[j] == before[j]);
                    }
                }
            },
            None => {
                let ghost vs = views(values@);
                proof {
                    if forall|k: int| 0 <= k < vs.len() ==> is_uuid_text(#[trigger] vs[k]) {
                        assert(is_uuid_text(vs[i as int]));
                        assert(0 <= i < vs.len());
                        let w = choose|w: u128| #[trigger] uuid_text(w) == vs[i as int];
                        assert(uuid_text(w) == vi);
                        assert(false);
                    }
                }
                proof {
                    assert forall|j: int| 0 <= j < i implies (#[trigger] uuid_from_text(
                        vs.take(i as int)[j],
                    )) is Some by {
                        assert(vs.take(i as int)[j] == vs[j]);
                    }
                    assert(uuid_from_text(vs[i as int]) is None);
                }
                let mut v: Vec<char> = Vec::new();
                push_str(&mut v, field_name);
                push_str(&mut v, "[");
                push_decimal(&mut v, i as u64);
                push_str(&mut v, "] must be a valid UUID (xxxxxxxx-xxxx-xxxx-xxxx-xxxxxxxxxxxx)");
                assert(v@ =~= invalid_uuid_at_message(field_name@, i as nat));
                assert(0 <= i < vs.len() && uuid_from_text(vs[i as int]) is None && all_uuids(
                    vs.take(i as int),
                ) && v@ == invalid_uuid_at_message(field_name@, i as nat));
                proof {
                    assert(first_bad_uuid_at(vs, i as int));
                    assert forall|j: int| #[trigger] first_bad_uuid_at(vs, j) implies j == i by {
                        if j < i {
                            assert(vs.take(i as int)[j] == vs[j]);
                        } else if j > i {
                            assert(vs.take(j)[i as int] == vs[i as int]);
                        }
                    }
                    assert(!all_uuids(vs));
                }
                return Err(string_from_chars(v.as_slice()));
            },
        }
        i = i + 1;
    }
    Ok(ids)
}

/// The character sequences of key/value pairs of strings.
pub open spec fn pair_views(ps: Seq<(String, String)>) -> Seq<(Seq<char>, Seq<char>)> {
    ps.map_values(|p: (String, String)| (p.0@, p.1@))
}

/// A comparison note whose key is a UUID and whose sanitized text is at most `max_len` bytes.
pub open spec fn note_ok(p: (Seq<char>, Seq<char>), max_len: nat) -> bool {
    uuid_from_text(p.0) is Some && byte_len(sanitize(p.1)) <= max_len
}

/// The notes that are kept: those whose sanitized text is not empty, keyed by their UUID.
pub open spec fn kept_note() -> spec_fn((Seq<char>, Seq<char>)) -> Option<(u128, Seq<char>)> {
    |p: (Seq<char>, Seq<char>)|
        if sanitize(p.1).len() > 0 && uuid_from_text(p.0) is Some {
            Some((uuid_from_text(p.0)->0, sanitize(p.1)))
        } else {
            None
        }
}

/// The UUID-keyed notes, as character sequences.
pub open spec fn keyed_views(v: Seq<(u128, String)>) -> Seq<(u128, Seq<char>)> {
    v.map_values(|p: (u128, String)| (p.0, p.1@))
}

/// The note on `id`: that of the last note for it, as reading the notes into a map gives it.
pub open spec fn note_on(notes: Seq<(u128, Seq<char>)>, id: u128) -> Option<Seq<char>>
    decreases notes.len(),
{
    if notes.len() == 0 {
        None
    } else if notes.last().0 == id {
        Some(notes.last().1)
    } else {
        note_on(notes.drop_last(), id)
    }
}

/// No UUID occurs twice.
pub open spec fn unique_keys(m: Seq<(u128, Seq<char>)>) -> bool {
    forall|i: int, j: int| 0 <= i < j < m.len() ==> #[trigger] m[i].0 != #[trigger] m[j].0
}

/// `m` with the note `p` inserted as into a map: it replaces the note with the same UUID, where
/// there is one, in place, and is appended otherwise.
pub open spec fn insert_note(m: Seq<(u128, Seq<char>)>, p: (u128, Seq<char>)) -> Seq<(u128, Seq<char>)> {
    if exists|k: int| 0 <= k < m.len() && (#[trigger] m[k]).0 == p.0 {
        m.update(choose|k: int| 0 <= k < m.len() && (#[trigger] m[k]).0 == p.0, p)
    } else {
        m.push(p)
    }
}

/// The notes inserted one after the other into an empty map.
pub open spec fn notes_map(s: Seq<(u128, Seq<char>)>) -> Seq<(u128, Seq<char>)>
    decreases s.len(),
{
    if s.len() == 0 {
        seq![]
    } else {
        insert_note(notes_map(s.drop_last()), s.last())
    }
}

/// In notes without a repeated UUID, the note on `id` is that of its one entry, if any.
proof fn lemma_note_on_unique(m: Seq<(u128, Seq<char>)>, id: u128)
    requires
        unique_keys(m),
    ensures
        forall|k: int| 0 <= k < m.len() && (#[trigger] m[k]).0 == id ==> note_on(m, id) == Some(m[k].1),
        (forall|k: int| 0 <= k < m.len() ==> (#[trigger] m[k]).0 != id) ==> note_on(m, id) is None,
    decreases m.len(),
{
    if m.len() > 0 {
        let p = m.drop_last();
        assert(unique_keys(p)) by {
            assert forall|i: int, j: int| 0 <= i < j < p.len() implies #[trigger] p[i].0 != #[trigger] p[j].0 by {
                assert(m[i] == p[i] && m[j] == p[j]);
            }
        }
        lemma_note_on_unique(p, id);
        assert forall|k: int| 0 <= k < m.len() && (#[trigger] m[k]).0 == id implies note_on(m, id) == Some(
            m[k].1,
        ) by {
            if k < m.len() - 1 {
                assert(m[k] == p[k]);
                assert(m[k].0 != m[m.len() - 1].0);
            }
        }
        if forall|k: int| 0 <= k < m.len() ==> (#[trigger] m[k]).0 != id {
            assert(m[m.len() - 1].0 != id);
            assert forall|k: int| 0 <= k < p.len() implies (#[trigger] p[k]).0 != id by {
                assert(m[k] == p[k]);
            }
        }
    }
}

/// Inserting a note keeps UUIDs unique and changes the note on its UUID only.
proof fn lemma_insert_note(m: Seq<(u128, Seq<char>)>, p: (u128, Seq<char>))
    requires
        unique_keys(m),
    ensures
        unique_keys(insert_note(m, p)),
        forall|id: u128| #[trigger] note_on(insert_note(m, p), id) == (if id == p.0 {
            Some(p.1)
        } else {
            note_on(m, id)
        }),
{
    let r = insert_note(m, p);
    if exists|k: int| 0 <= k < m.len() && (#[trigger] m[k]).0 == p.0 {
        let k = choose|k: int| 0 <= k < m.len() && (#[trigger] m[k]).0 == p.0;
        assert(r == m.update(k, p));
        assert(unique_keys(r)) by {
            assert forall|i: int, j: int| 0 <= i < j < r.len() implies #[trigger] r[i].0 != #[trigger] r[j].0 by {
                assert(m[i].0 != m[j].0);
                assert(r[i].0 == m[i].0 && r[j].0 == m[j].0);
            }
        }
        assert forall|id: u128| #[trigger] note_on(r, id) == (if id == p.0 {
            Some(p.1)
        } else {
            note_on(m, id)
        }) by {
            lemma_note_on_unique(m, id);
            lemma_note_on_unique(r, id);
            if id == p.0 {
                assert(r[k] == p);
            } else {
                if exists|j: int| 0 <= j < m.len() && (#[trigger] m[j]).0 == id {
                    let j = choose|j: int| 0 <= j < m.len() && (#[trigger] m[j]).0 == id;
                    assert(j != k);
                    assert(r[j] == m[j]);
                } else {
                    assert forall|j: int| 0 <= j < r.len() implies (#[trigger] r[j]).0 != id by {
                        if j != k {
                            assert(r[j] == m[j]);
                        }
                    }
                }
            }
        }
    } else {
        assert(r == m.push(p));
        assert(unique_keys(r)) by {
            assert forall|i: int, j: int| 0 <= i < j < r.len() implies #[trigger] r[i].0 != #[trigger] r[j].0 by {
                if j == m.len() {
                    assert(r[i] == m[i]);
                } else {
                    assert(r[i] == m[i] && r[j] == m[j]);
                }
            }
        }
        assert forall|id: u128| #[trigger] note_on(r, id) == (if id == p.0 {
            Some(p.1)
        } else {
            note_on(m, id)
        }) by {
            assert(r.drop_last() =~= m);
        }
    }
}

/// Notes read into a map hold no UUID twice, and the note on each UUID is its last note.
pub proof fn law_notes_map(s: Seq<(u128, Seq<char>)>)
    ensures
        unique_keys(notes_map(s)),
        forall|id: u128| #[trigger] note_on(notes_map(s), id) == note_on(s, id),
    decreases s.len(),
{
    if s.len() > 0 {
        law_notes_map(s.drop_last());
        lemma_insert_note(notes_map(s.drop_last()), s.last());
    }
}

/// Message for more comparison notes than allowed.
pub open spec fn notes_count_message(max_entries: nat) -> Seq<char> {
    "comparison_notes supports at most "@ + decimal(max_entries) + " entries"@
}

/// Message for a comparison note longer than allowed.
pub open spec fn note_length_message(key: Seq<char>, max_len: nat) -> Seq<char> {
    "comparison note for "@ + key + " exceeds "@ + decimal(max_len) + " characters"@
}

/// The message for the note `p` that is not valid.
pub open spec fn bad_note_message(p: (Seq<char>, Seq<char>), max_len: nat) -> Seq<char> {
    if uuid_from_text(p.0) is None {
        invalid_uuid_message("comparison_notes key"@)
    } else {
        note_length_message(p.0, max_len)
    }
}

/// Index `i` holds the first note of `ps` that is not valid.
pub open spec fn first_bad_note_at(ps: Seq<(Seq<char>, Seq<char>)>, i: int, max_len: nat) -> bool {
    0 <= i < ps.len() && !note_ok(ps[i], max_len) && forall|j: int|
        0 <= j < i ==> note_ok(#[trigger] ps[j], max_len)
}

/// The message `validate_comparison_notes` fails with, if any.
pub open spec fn notes_error(ps: Seq<(Seq<char>, Seq<char>)>, max_entries: nat, max_len: nat) -> Option<
    Seq<char>,
> {
    if ps.len() > max_entries {
        Some(notes_count_message(max_entries))
    } else if forall|i: int| 0 <= i < ps.len() ==> note_ok(#[trigger] ps[i], max_len) {
        None
    } else {
        Some(bad_note_message(ps[choose|i: int| first_bad_note_at(ps, i, max_len)], max_len))
    }
}

proof fn lemma_first_bad_note_unique(ps: Seq<(Seq<char>, Seq<char>)>, i: int, max_len: nat)
    requires
        first_bad_note_at(ps, i, max_len),
    ensures
        forall|j: int| #[trigger] first_bad_note_at(ps, j, max_len) ==> j == i,
{
    assert forall|j: int| #[trigger] first_bad_note_at(ps, j, max_len) implies j == i by {
        if j < i {
            assert(note_ok(ps[j], max_len));
        } else if j > i {
            assert(note_ok(ps[i], max_len));
        }
    }
}

/// Checks comparison notes in order: at most `max_entries`, each key a UUID, each sanitized note at
/// most `max_note_len` bytes. The notes whose sanitized text is not empty are read, in order, into
/// a map keyed by UUID: a later note for the same UUID replaces an earlier one, so no UUID occurs
/// twice and the note on each UUID is its last non-empty note.
#[verifier::loop_isolation(false)]
pub fn validate_comparison_notes(notes: &[(String, String)], max_entries: usize, max_note_len: usize)
    -> (r: Result<Vec<(u128, String)>, String>)
    ensures
        ({
            let ps = pair_views(notes@);
            &&& r is Ok <==> (ps.len() <= max_entries && forall|i: int|
                0 <= i < ps.len() ==> note_ok(#[trigger] ps[i], max_note_len as nat))
            &&& r matches Ok(v) ==> keyed_views(v@) == notes_map(ps.filter_map(kept_note()))
            &&& r matches Ok(v) ==> unique_keys(keyed_views(v@))
            &&& r matches Ok(v) ==> forall|id: u128|
                #[trigger] note_on(keyed_views(v@), id) == note_on(ps.filter_map(kept_note()), id)
            &&& r matches Err(m) ==> if ps.len() > max_entries {
                m@ == notes_count_message(max_entries as nat)
            } else {
                exists|i: int|
                    0 <= i < ps.len() && !note_ok(#[trigger] ps[i], max_note_len as nat) && (
                    forall|j: int| 0 <= j < i ==> note_ok(#[trigger] ps[j], max_note_len as nat))
                        && m@ == bad_note_message(ps[i], max_note_len as nat)
            }
            &&& r is Ok <==> notes_error(ps, max_entries as nat, max_note_len as nat) is None
            &&& r matches Err(m) ==> notes_error(ps, max_entries as nat, max_note_len as nat) == Some(
                m@,
            )
        }),
{
    let ghost ps = pair_views(notes@);
    if notes.len() > max_entries {
        let mut v: Vec<char> = Vec::new();
        push_str(&mut v, "comparison_notes supports at most ");
        push_decimal(&mut v, max_entries as u64);
        push_str(&mut v, " entries");
        assert(v@ =~= notes_count_message(max_entries as nat));
        return Err(string_from_chars(v.as_slice()));
    }
    let mut out: Vec<(u128, String)> = Vec::new();
    let mut i: usize = 0;
    while i < notes.len()
        invariant
            i <= notes@.len(),
            ps == pair_views(notes@),
            forall|j: int| 0 <= j < i ==> note_ok(#[trigger] ps[j], max_note_len as nat),
            keyed_views(out@) == notes_map(ps.take(i as int).filter_map(kept_note())),
            unique_keys(keyed_views(out@)),
        decreases notes@.len() - i,
    {
        let key = &notes[i].0;
        let note = &notes[i].1;
        assert(ps[i as int] == (key@, note@));
        let parsed = parse_uuid(key.as_str(), "comparison_notes key");
        let id = match parsed {
            Ok(u) => u,
            Err(m) => {
                assert(!note_ok(ps[i as int], max_note_len as nat));
                proof {
                    assert(first_bad_note_at(ps, i as int, max_note_len as nat));
                    lemma_first_bad_note_unique(ps, i as int, max_note_len as nat);
                    let c = choose|k: int| first_bad_note_at(ps, k, max_note_len as nat);
                    assert(c == i);
                }
                return Err(m);
            },
        };
        let sanitized = sanitize_text(note.as_str());
        let cs = chars_of_string(&sanitized);
        if byte_len_exceeds(cs.as_slice(), max_note_len) {
            let mut v: Vec<char> = Vec::new();
            push_str(&mut v, "comparison note for ");
            push_str(&mut v, key.as_str());
            push_str(&mut v, " exceeds ");
            push_decimal(&mut v, max_note_len as u64);
            push_str(&mut v, " characters");
            assert(v@ =~= note_length_message(key@, max_note_len as nat));
            assert(!note_ok(ps[i as int], max_note_len as nat));
            proof {
                assert(first_bad_note_at(ps, i as int, max_note_len as nat));
                lemma_first_bad_note_unique(ps, i as int, max_note_len as nat);
                let c = choose|k: int| first_bad_note_at(ps, k, max_note_len as nat);
                assert(c == i);
            }
            return Err(string_from_chars(v.as_slice()));
        }
        let ghost before = keyed_views(out@);
        let ghost f0 = ps.take(i as int).filter_map(kept_note());
        let ghost f1 = ps.take(i + 1).filter_map(kept_note());
        proof {
            let t = ps.take(i + 1);
            assert(t.drop_last() =~= ps.take(i as int));
            assert(t.last() == ps[i as int]);
            reveal_with_fuel(Seq::filter_map, 1);
            if sanitize(note@).len() > 0 {
                assert(f1 == f0.push((id, sanitize(note@))));
                assert(f1.drop_last() =~= f0);
                assert(notes_map(f1) == insert_note(notes_map(f0), (id, sanitize(note@))));
            } else {
                assert(f1 == f0);
            }
        }
        if cs.len() > 0 {
            let ghost p = (id, sanitize(note@));
            proof {
                lemma_insert_note(before, p);
            }
            let mut k: usize = 0;
            while k < out.len() && out[k].0 != id
                invariant
                    k <= out@.len(),
                    forall|j: int| 0 <= j < k ==> (#[trigger] out@[j]).0 != id,
                decreases out@.len() - k,
            {
                k = k + 1;
            }
            if k < out.len() {
                proof {
                    assert(before[k as int].0 == id);
                    let c = choose|c: int| 0 <= c < before.len() && (#[trigger] before[c]).0 == p.0;
                    if c != k {
                        if c < k {
                            assert(before[c].0 != before[k as int].0);
                        } else {
                            assert(before[k as int].0 != before[c].0);
                        }
                    }
                    assert(insert_note(before, p) == before.update(k as int, p));
                }
                out.set(k, (id, sanitized));
                assert(keyed_views(out@) =~= before.update(k as int, p));
            } else {
                proof {
                    assert forall|c: int| 0 <= c < before.len() implies (#[trigger] before[c]).0 != p.0 by {
                        assert(before[c].0 == out@[c].0);
                    }
                    assert(insert_note(before, p) == before.push(p));
                }
                out.push((id, sanitized));
                assert(keyed_views(out@) =~= before.push(p));
            }
        }
        i = i + 1;
    }
    assert(ps.take(notes@.len() as int) =~= ps);
    proof {
        law_notes_map(ps.filter_map(kept_note()));
    }
    Ok(out)
}

/// The message `validate_keywords` fails with, if any.
pub open spec fn keywords_error(ks: Seq<Seq<char>>) -> Option<Seq<char>> {
    let clean = clean_list(ks);
    if clean.len() == 0 || clean.len() > MAX_KEYWORDS {
        Some(keyword_count_message())
    } else if any_longer(clean, MAX_KEYWORD_LEN as nat) {
        Some(keyword_length_message())
    } else {
        None
    }
}

/// The values of a cleaned list are non-empty and already sanitized, so cleaning the list again
/// changes nothing and keywords that were accepted are accepted again unchanged.
pub proof fn law_clean_list_is_clean(vs: Seq<Seq<char>>)
    ensures
        forall|i: int|
            0 <= i < clean_list(vs).len() ==> (#[trigger] clean_list(vs)[i]).len() > 0 && sanitize(
                clean_list(vs)[i],
            ) == clean_list(vs)[i],
        clean_list(clean_list(vs)) == clean_list(vs),
        keywords_error(clean_list(vs)) == keywords_error(vs),
{
    broadcast use vstd::seq_lib::group_filter_ensures;

    let m = vs.map_values(sanitizer());
    let c = clean_list(vs);
    assert forall|i: int| 0 <= i < c.len() implies (#[trigger] c[i]).len() > 0 && sanitize(c[i])
        == c[i] by {
        assert(non_empty()(c[i]));
        assert(c.contains(c[i]));
        m.lemma_filter_contains_rev(non_empty(), c[i]);
        assert(m.contains(c[i]));
        let j = choose|j: int| 0 <= j < m.len() && m[j] == c[i];
        crate::text::law_sanitize_clean(vs[j]);
    }
    let mc = c.map_values(sanitizer());
    assert(mc =~= c);
    assert forall|i: int| 0 <= i < c.len() implies non_empty()(#[trigger] c[i]) by {}
    crate::text::lemma_filter_all(c, non_empty());
}

/// The message `sanitize_string_list` fails with, if any.
pub open spec fn list_error(vs: Seq<Seq<char>>, field: Seq<char>, max_items: nat, max_len: nat) -> Option<
    Seq<char>,
> {
    let clean = clean_list(vs);
    if clean.len() > max_items {
        Some(too_many_message(field, max_items))
    } else if any_longer(clean, max_len) {
        Some(values_too_long_message(field, max_len))
    } else {
        None
    }
}

/// The message `validate_minecraft_version` fails with, if any.
pub open spec fn version_error(version: Option<Seq<char>>) -> Option<Seq<char>> {
    match version {
        None => None,
        Some(v) => {
            let s = sanitize(v);
            if s.len() == 0 {
                None
            } else if byte_len(s) > 20 {
                Some(version_length_message())
            } else if !(forall|j: int| 0 <= j < s.len() ==> version_char(#[trigger] s[j])) {
                Some(version_chars_message())
            } else if !is_minecraft_version(s) {
                Some(version_format_message())
            } else {
                None
            }
        },
    }
}

/// The version that `validate_minecraft_version` accepts: the sanitized text, absent where empty.
pub open spec fn accepted_version(version: Option<Seq<char>>) -> Option<Seq<char>> {
    match version {
        None => None,
        Some(v) => if sanitize(v).len() == 0 {
            None
        } else {
            Some(sanitize(v))
        },
    }
}

/// The message `sanitize_optional_text` fails with, if any.
pub open spec fn optional_text_error(value: Option<Seq<char>>, field: Seq<char>, max_len: nat) -> Option<
    Seq<char>,
> {
    match value {
        Some(v) => if sanitize(v).len() > 0 && byte_len(sanitize(v)) > max_len {
            Some(text_too_long_message(field, max_len))
        } else {
            None
        },
        None => None,
    }
}

/// The text that `sanitize_optional_text` accepts: sanitized, absent where empty.
pub open spec fn accepted_text(value: Option<Seq<char>>) -> Option<Seq<char>> {
    accepted_version(value)
}

/// `s` with all trailing `c` removed.
pub open spec fn strip_trailing(s: Seq<char>, c: char) -> Seq<char>
    decreases s.len(),
{
    if s.len() > 0 && s.last() == c {
        strip_trailing(s.drop_last(), c)
    } else {
        s
    }
}

} // verus!
