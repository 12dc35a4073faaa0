//! Instants in UTC, as seconds and nanoseconds since the Unix epoch.
use vstd::prelude::*;

verus! {

/// An instant: whole seconds since 1970-01-01T00:00:00Z and the nanoseconds past that second
/// (above 999,999,999 only within a leap second).
#[derive(Clone, Copy, Debug, PartialEq, Eq, Structural)]
pub struct Timestamp {
    pub secs: i64,
    pub nanos: u32,
}

/// `a` comes strictly before `b`.
pub open spec fn is_before(a: Timestamp, b: Timestamp) -> bool {
    a.secs < b.secs || (a.secs == b.secs && a.nanos < b.nanos)
}

/// The seconds of a day.
pub const SECONDS_PER_DAY: i64 = 86400;

/// The first second of the calendar that instants can be in: -262143-01-01T00:00:00Z.
pub const MIN_CALENDAR_SECS: i64 = -8_334_601_315_200;

/// The last second of the calendar that instants can be in: +262142-12-31T23:59:59Z.
pub const MAX_CALENDAR_SECS: i64 = 8_210_266_876_799;

/// Whether a second lies within the calendar (`DateTime::<Utc>::MIN_UTC..=MAX_UTC`).
pub open spec fn secs_in_calendar(secs: int) -> bool {
    MIN_CALENDAR_SECS <= secs <= MAX_CALENDAR_SECS
}

/// Whether an instant lies within the calendar.
pub open spec fn in_calendar_range(t: Timestamp) -> bool {
    secs_in_calendar(t.secs as int)
}

impl Timestamp {
    /// Whether `self` comes strictly before `other`.
    pub fn before(&self, other: &Timestamp) -> (b: bool)
        ensures
            b == is_before(*self, *other),
    {
        self.secs < other.secs || (self.secs == other.secs && self.nanos < other.nanos)
    }

    /// `self` moved `days` whole days later (earlier for a negative count); the instant it gives
    /// must lie within the calendar.
    pub fn plus_days(&self, days: i64) -> (t: Timestamp)
        requires
            in_calendar_range(*self),
            secs_in_calendar(self.secs + days * SECONDS_PER_DAY),
        ensures
            t.secs == self.secs + days * SECONDS_PER_DAY,
            t.nanos == self.nanos,
    {
        Timestamp { secs: self.secs + days * SECONDS_PER_DAY, nanos: self.nanos }
    }
}

/// Calls `chrono::Utc::now`. Claimed: the instant is not before the Unix epoch and lies within the
/// calendar (`Utc::now` panics otherwise, as its source shows: `expect` on
/// `duration_since(UNIX_EPOCH)`, `unwrap` on `from_timestamp`), and its nanoseconds are below two
/// seconds, as chrono's documentation of `timestamp_subsec_nanos` says. Which instant it is,
/// nothing says.
#[verifier::external_body]
pub(crate) fn utc_now() -> (t: Timestamp)
    ensures
        in_calendar_range(t),
        t.secs >= 0,
        t.nanos < 2_000_000_000,
{
    let now = chrono::Utc::now();
    Timestamp { secs: now.timestamp(), nanos: now.timestamp_subsec_nanos() }
}

/// What `chrono::DateTime::parse_from_rfc3339` makes of `text`: the UTC instant as seconds and
/// nanoseconds, or the text of its parse error.
pub uninterp spec fn rfc3339_parse(text: Seq<char>) -> Result<(i64, u32), Seq<char>>;

/// The instant or error text of a parse result.
pub open spec fn timestamp_result_view(t: Result<Timestamp, String>) -> Result<(i64, u32), Seq<char>> {
    match t {
        Ok(v) => Ok((v.secs, v.nanos)),
        Err(m) => Err(m@),
    }
}

/// Calls `chrono::DateTime::parse_from_rfc3339`, converts the instant to UTC
/// (`with_timezone(&Utc)`) and an error to its `Display` text. Claimed: the result is what the
/// parser makes of the text; which texts it takes, and the wording of its errors, are not stated.
#[verifier::external_body]
pub(crate) fn parse_rfc3339(text: &str) -> (t: Result<Timestamp, String>)
    ensures
        rfc3339_parse(text@) == timestamp_result_view(t),
{
    match chrono::DateTime::parse_from_rfc3339(text) {
        Ok(dt) => {
            let utc = dt.with_timezone(&chrono::Utc);
            Ok(Timestamp { secs: utc.timestamp(), nanos: utc.timestamp_subsec_nanos() })
        },
        Err(e) => Err(e.to_string()),
    }
}

} // verus!
