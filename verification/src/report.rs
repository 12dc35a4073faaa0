//! Texts shown to users: compatibility and maintenance lines, degraded-mode decisions, and the
//! checks on provider records and consolidated profiles.
use vstd::prelude::*;
use crate::text::{chars_of, push_str, push_decimal, decimal, string_from_chars, fold_ascii, eq_fold, byte_len, byte_len_exceeds, chars_of_string};
use crate::models::{CompatibilityStatus, MaintenanceStatus};
use crate::time::{Timestamp, is_before};

verus! {

broadcast use vstd::string::group_string_axioms;

/// The pieces joined with `sep` between neighbours.
pub open spec fn join_sep(w: Seq<Seq<char>>, sep: Seq<char>) -> Seq<char>
    decreases w.len(),
{
    if w.len() == 0 {
        seq![]
    } else if w.len() == 1 {
        w[0]
    } else {
        join_sep(w.drop_last(), sep) + sep + w.last()
    }
}

/// Appends the strings, joined with `sep`, to `out`.
pub fn push_joined(out: &mut Vec<char>, v: &[String], sep: &str)
    ensures
        final(out)@ == old(out)@ + join_sep(v@.map_values(|s: String| s@), sep@),
{
    let ghost w = v@.map_values(|s: String| s@);
    let ghost start = out@;
    let mut i: usize = 0;
    while i < v.len()
        invariant
            i <= v@.len(),
            w == v@.map_values(|s: String| s@),
            out@ == start + join_sep(w.take(i as int), sep@),
        decreases v@.len() - i,
    {
        if i > 0 {
            push_str(out, sep);
        }
        push_str(out, v[i].as_str());
        proof {
            let t = w.take(i + 1);
            assert(t.drop_last() =~= w.take(i as int));
            assert(t.last() == v@[i as int]@);
            if i == 0 {
                assert(out@ =~= start + t[0]);
            } else {
                assert(out@ =~= start + (join_sep(w.take(i as int), sep@) + sep@ + t.last()));
            }
        }
        i = i + 1;
    }
    assert(w.take(v@.len() as int) =~= w);
}

/// The compatibility line of a profile.
pub open spec fn compatibility_line(s: CompatibilityStatus) -> Seq<char> {
    match s {
        CompatibilityStatus::FullyCompatible => "Fully compatible"@,
        CompatibilityStatus::PartiallyCompatible { issues } => "Partially compatible: "@ + join_sep(
            issues@.map_values(|s: String| s@),
            "; "@,
        ),
        CompatibilityStatus::Incompatible { reasons } => "Incompatible: "@ + join_sep(
            reasons@.map_values(|s: String| s@),
            "; "@,
        ),
    }
}

/// The compatibility line of a profile.
pub fn compatibility_text(status: &CompatibilityStatus) -> (t: String)
    ensures
        t@ == compatibility_line(*status),
{
    let mut v: Vec<char> = Vec::new();
    match status {
        CompatibilityStatus::FullyCompatible => {
            push_str(&mut v, "Fully compatible");
        },
        CompatibilityStatus::PartiallyCompatible { issues } => {
            push_str(&mut v, "Partially compatible: ");
            push_joined(&mut v, issues.as_slice(), "; ");
        },
        CompatibilityStatus::Incompatible { reasons } => {
            push_str(&mut v, "Incompatible: ");
            push_joined(&mut v, reasons.as_slice(), "; ");
        },
    }
    string_from_chars(v.as_slice())
}

/// The maintenance line of a profile.
pub open spec fn maintenance_line(s: MaintenanceStatus) -> Seq<char> {
    match s {
        MaintenanceStatus::ActivelyMaintained => "Actively maintained"@,
        MaintenanceStatus::Maintenance { last_update_days } => "Maintenance mode (last update "@
            + decimal(last_update_days as nat) + " days ago)"@,
        MaintenanceStatus::Abandoned => "Likely abandoned"@,
        MaintenanceStatus::Unknown => "Unknown"@,
    }
}

/// The maintenance line of a profile.
pub fn maintenance_text(status: &MaintenanceStatus) -> (t: String)
    ensures
        t@ == maintenance_line(*status),
{
    let mut v: Vec<char> = Vec::new();
    match status {
        MaintenanceStatus::ActivelyMaintained => {
            push_str(&mut v, "Actively maintained");
        },
        MaintenanceStatus::Maintenance { last_update_days } => {
            push_str(&mut v, "Maintenance mode (last update ");
            push_decimal(&mut v, *last_update_days as u64);
            push_str(&mut v, " days ago)");
        },
        MaintenanceStatus::Abandoned => {
            push_str(&mut v, "Likely abandoned");
        },
        MaintenanceStatus::Unknown => {
            push_str(&mut v, "Unknown");
        },
    }
    string_from_chars(v.as_slice())
}

/// Whether a reported severity is a warning, ignoring ASCII case.
pub fn is_warning_severity(severity: &str) -> (b: bool)
    ensures
        b == (fold_ascii(severity@) == "warning"@),
{
    eq_fold(chars_of(severity).as_slice(), "warning")
}

/// Whether a command search failed as a whole: no provider answered and some failed.
pub fn all_providers_failed(succeeded: usize, failed: usize) -> (b: bool)
    ensures
        b == (succeeded == 0 && failed > 0),
{
    succeeded == 0 && failed > 0
}

/// The degradation reason of a result: given exactly where some provider failed.
pub fn degradation_reason(failed: usize) -> (r: Option<String>)
    ensures
        r is Some <==> failed > 0,
        r matches Some(m) ==> m@ == crate::search::degraded_reason(),
{
    if failed == 0 {
        None
    } else {
        Some("One or more providers failed; showing available results".to_string())
    }
}

/// The message of the first check a provider record fails: a name of 1 to 100 bytes, a summary
/// of at most 500 bytes, a relevance score within `[0, 1]`, and a fetch instant not after `now`.
pub open spec fn record_error(name: Seq<char>, summary: Seq<char>, relevance_in_range: bool, fetched_at: Timestamp, now: Timestamp) -> Option<Seq<char>> {
    if name.len() == 0 || byte_len(name) > 100 {
        Some("Name must be non-empty and ≤ 100 characters"@)
    } else if byte_len(summary) > 500 {
        Some("Summary must be ≤ 500 characters"@)
    } else if !relevance_in_range {
        Some("Relevance score must be in range [0.0, 1.0]"@)
    } else if is_before(now, fetched_at) {
        Some("Fetched timestamp cannot be in the future"@)
    } else {
        None
    }
}

/// Checks a provider record, given whether its relevance score lies within `[0, 1]` and the
/// current instant.
pub fn check_provider_record(name: &str, summary: &str, relevance_in_range: bool, fetched_at: Timestamp, now: Timestamp) -> (r: Result<(), String>)
    ensures
        r is Ok <==> record_error(name@, summary@, relevance_in_range, fetched_at, now) is None,
        r matches Err(m) ==> Some(m@) == record_error(name@, summary@, relevance_in_range, fetched_at, now),
{
    let n = chars_of(name);
    if n.len() == 0 || byte_len_exceeds(n.as_slice(), 100) {
        return Err("Name must be non-empty and ≤ 100 characters".to_string());
    }
    if byte_len_exceeds(chars_of(summary).as_slice(), 500) {
        return Err("Summary must be ≤ 500 characters".to_string());
    }
    if !relevance_in_range {
        return Err("Relevance score must be in range [0.0, 1.0]".to_string());
    }
    if now.before(&fetched_at) {
        return Err("Fetched timestamp cannot be in the future".to_string());
    }
    Ok(())
}

/// The message of the first check a consolidated profile fails: a provider record, then a
/// composite relevance and a confidence score within `[0, 1]`.
pub open spec fn profile_error(records: nat, relevance_in_range: bool, confidence_in_range: bool) -> Option<Seq<char>> {
    if records == 0 {
        Some("ConsolidatedModProfile must have at least one provider record"@)
    } else if !relevance_in_range {
        Some("Composite relevance must be in range [0.0, 1.0]"@)
    } else if !confidence_in_range {
        Some("Confidence score must be in range [0.0, 1.0]"@)
    } else {
        None
    }
}

/// Checks a consolidated profile, given its record count and whether its scores lie within
/// `[0, 1]`.
pub fn check_profile(records: usize, relevance_in_range: bool, confidence_in_range: bool) -> (r: Result<(), String>)
    ensures
        r is Ok <==> profile_error(records as nat, relevance_in_range, confidence_in_range) is None,
        r matches Err(m) ==> Some(m@) == profile_error(records as nat, relevance_in_range, confidence_in_range),
{
    if records == 0 {
        return Err("ConsolidatedModProfile must have at least one provider record".to_string());
    }
    if !relevance_in_range {
        return Err("Composite relevance must be in range [0.0, 1.0]".to_string());
    }
    if !confidence_in_range {
        return Err("Confidence score must be in range [0.0, 1.0]".to_string());
    }
    Ok(())
}

} // verus!
