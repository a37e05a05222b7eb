//! Timestamps, and the date formats read from front matter and written into
//! feeds. Parsing and formatting are chrono's.
use vstd::prelude::*;

verus! {

/// An instant in UTC: whole seconds since 1970-01-01T00:00:00Z and the
/// nanoseconds past that second.
#[derive(Clone, Copy, Debug, PartialEq, Eq, Structural)]
pub struct Stamp {
    pub secs: i64,
    pub nanos: u32,
}

/// `a` is not later than `b`.
pub open spec fn stamp_le(a: Stamp, b: Stamp) -> bool {
    a.secs < b.secs || (a.secs == b.secs && a.nanos <= b.nanos)
}

/// The order of optional dates: an absent date is earlier than any date.
pub open spec fn date_le(a: Option<Stamp>, b: Option<Stamp>) -> bool {
    match (a, b) {
        (None, _) => true,
        (Some(_), None) => false,
        (Some(x), Some(y)) => stamp_le(x, y),
    }
}

/// Whether `a` is not later than `b`, absent dates first.
pub fn date_le_exec(a: Option<Stamp>, b: Option<Stamp>) -> (r: bool)
    ensures
        r == date_le(a, b),
{
    match (a, b) {
        (None, _) => true,
        (Some(_), None) => false,
        (Some(x), Some(y)) => x.secs < y.secs || (x.secs == y.secs && x.nanos <= y.nanos),
    }
}

/// The instant (seconds, nanoseconds) that an RFC 3339 timestamp denotes,
/// or `None` when `s` is not one.
pub uninterp spec fn rfc3339_instant(s: Seq<char>) -> Option<(i64, u32)>;

/// The UTC-midnight instant (in seconds) of a `YYYY-MM-DD` date, or `None`
/// when `s` is not one.
pub uninterp spec fn ymd_midnight(s: Seq<char>) -> Option<i64>;

/// The RFC 2822 text of the UTC instant (`secs`, `nanos`), or `None` when
/// chrono cannot represent it.
pub uninterp spec fn rfc2822_text(secs: i64, nanos: u32) -> Option<Seq<char>>;

/// The RFC 3339 text of the date-time that the RFC 2822 text `s` denotes,
/// with its own offset, or `None` when `s` is not RFC 2822.
pub uninterp spec fn rfc3339_of_rfc2822(s: Seq<char>) -> Option<Seq<char>>;

/// Relies on `chrono::DateTime::parse_from_rfc3339`, read back through
/// `timestamp` and `timestamp_subsec_nanos`.
#[verifier::external_body]
fn parse_rfc3339(s: &str) -> (r: Option<(i64, u32)>)
    ensures
        r == rfc3339_instant(s@),
{
    chrono::DateTime::parse_from_rfc3339(s).ok().map(|d| (d.timestamp(), d.timestamp_subsec_nanos()))
}

/// Relies on `chrono::NaiveDate::parse_from_str` with `%Y-%m-%d`, taken at
/// midnight UTC and read back through `timestamp`.
#[verifier::external_body]
fn parse_ymd(s: &str) -> (r: Option<i64>)
    ensures
        r == ymd_midnight(s@),
{
    chrono::NaiveDate::parse_from_str(s, "%Y-%m-%d").ok().map(
        |d| d.and_time(chrono::NaiveTime::MIN).and_utc().timestamp(),
    )
}

/// First second of the year 0 (UTC).
pub const RFC2822_MIN_SECS: i64 = -62167219200;

/// Last second of the year 9999 (UTC).
pub const RFC2822_MAX_SECS: i64 = 253402300799;

/// Relies on `chrono::DateTime::from_timestamp` and `DateTime::to_rfc2822`;
/// the latter panics outside the years 0 to 9999, which `requires` leaves out.
#[verifier::external_body]
fn format_rfc2822(secs: i64, nanos: u32) -> (r: Option<String>)
    requires
        RFC2822_MIN_SECS <= secs <= RFC2822_MAX_SECS,
    ensures
        opt_string_view(r) == rfc2822_text(secs, nanos),
{
    chrono::DateTime::from_timestamp(secs, nanos).map(|d| d.to_rfc2822())
}

/// Relies on `chrono::DateTime::parse_from_rfc2822` and `DateTime::to_rfc3339`.
#[verifier::external_body]
pub(crate) fn reformat_rfc2822_as_rfc3339(s: &str) -> (r: Option<String>)
    ensures
        opt_string_view(r) == rfc3339_of_rfc2822(s@),
{
    chrono::DateTime::parse_from_rfc2822(s).ok().map(|d| d.to_rfc3339())
}

/// The view of an optional string.
pub open spec fn opt_string_view(o: Option<String>) -> Option<Seq<char>> {
    match o {
        Some(s) => Some(s@),
        None => None,
    }
}

/// The date that a front-matter date text denotes: an RFC 3339 timestamp, or
/// else a `YYYY-MM-DD` date at midnight UTC.
pub open spec fn date_of_text(s: Seq<char>) -> Option<Stamp> {
    match rfc3339_instant(s) {
        Some(p) => Some(Stamp { secs: p.0, nanos: p.1 }),
        None => match ymd_midnight(s) {
            Some(t) => Some(Stamp { secs: t, nanos: 0 }),
            None => None,
        },
    }
}

/// Reads a front-matter date: RFC 3339, or `YYYY-MM-DD` at midnight UTC.
pub fn parse_date(s: &str) -> (r: Option<Stamp>)
    ensures
        r == date_of_text(s@),
{
    match parse_rfc3339(s) {
        Some((secs, nanos)) => Some(Stamp { secs, nanos }),
        None => match parse_ymd(s) {
            Some(t) => Some(Stamp { secs: t, nanos: 0 }),
            None => None,
        },
    }
}

/// The RFC 2822 text of a date, as a feed item's publication date: `None`
/// when it falls outside the years 0 to 9999 or chrono cannot represent it.
pub open spec fn pub_date_text(d: Stamp) -> Option<Seq<char>> {
    if RFC2822_MIN_SECS <= d.secs <= RFC2822_MAX_SECS {
        rfc2822_text(d.secs, d.nanos)
    } else {
        None
    }
}

/// Formats a date as RFC 2822, where that format can hold it.
pub fn format_pub_date(d: Stamp) -> (r: Option<String>)
    ensures
        opt_string_view(r) == pub_date_text(d),
{
    if RFC2822_MIN_SECS <= d.secs && d.secs <= RFC2822_MAX_SECS {
        format_rfc2822(d.secs, d.nanos)
    } else {
        None
    }
}

} // verus!
