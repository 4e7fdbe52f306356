//! Instants read from RFC 3339 text, as `(unix seconds, nanoseconds)`.
use vstd::prelude::*;

verus! {

/// The instant that chrono's `DateTime::parse_from_rfc3339` reads from a text,
/// as `(timestamp, timestamp_subsec_nanos)`, or `None` when it refuses it.
pub uninterp spec fn rfc3339_instant(text: Seq<char>) -> Option<(i64, u32)>;

/// The instant that the `time` crate's `OffsetDateTime::parse` with the
/// RFC 3339 description reads from a text, as `(unix_timestamp,
/// nanosecond)`, or `None` when it refuses it.
pub uninterp spec fn rfc3339_time_instant(text: Seq<char>) -> Option<(i64, u32)>;

/// Strict order of instants.
pub open spec fn instant_lt(a: (i64, u32), b: (i64, u32)) -> bool {
    a.0 < b.0 || (a.0 == b.0 && a.1 < b.1)
}

/// `a` moved back by `secs` seconds.
pub open spec fn instant_minus(a: (i64, u32), secs: int) -> (int, u32) {
    (a.0 - secs, a.1)
}

/// Strict order between an instant and a shifted one.
pub open spec fn before_shifted(a: (i64, u32), b: (int, u32)) -> bool {
    a.0 < b.0 || (a.0 == b.0 && a.1 < b.1)
}

/// Reads an RFC 3339 text with chrono: calls `DateTime::parse_from_rfc3339`
/// and reads the instant by `timestamp` and `timestamp_subsec_nanos`. The
/// result is named by `rfc3339_instant`; nothing more is claimed of it.
#[verifier::external_body]
pub(crate) fn parse_rfc3339(text: &str) -> (r: Option<(i64, u32)>)
    ensures
        r == rfc3339_instant(text@),
{
    match chrono::DateTime::parse_from_rfc3339(text) {
        Ok(t) => Some((t.timestamp(), t.timestamp_subsec_nanos())),
        Err(_) => None,
    }
}

/// Reads an RFC 3339 text with the `time` crate: calls
/// `OffsetDateTime::parse` with `Rfc3339` and reads the instant by
/// `unix_timestamp` and `nanosecond`. The result is named by
/// `rfc3339_time_instant`; nothing more is claimed of it.
#[verifier::external_body]
pub(crate) fn parse_rfc3339_time(text: &str) -> (r: Option<(i64, u32)>)
    ensures
        r == rfc3339_time_instant(text@),
{
    match time::OffsetDateTime::parse(text, &time::format_description::well_known::Rfc3339) {
        Ok(t) => Some((t.unix_timestamp(), t.nanosecond())),
        Err(_) => None,
    }
}

/// Whether instant `a` is strictly before instant `b`.
pub fn is_before(a: (i64, u32), b: (i64, u32)) -> (r: bool)
    ensures
        r == instant_lt(a, b),
{
    a.0 < b.0 || (a.0 == b.0 && a.1 < b.1)
}

/// The RFC 3339 text chrono gives for a UTC instant with whole seconds
/// (`to_rfc3339_opts` with `SecondsFormat::Secs` and `Z`), or `None` when
/// the instant is outside chrono's range.
pub uninterp spec fn utc_seconds_text(secs: i64) -> Option<Seq<char>>;

/// The instant `secs` seconds after the epoch falls in the years 0 to 9999,
/// the years RFC 3339 writes with exactly four digits.
pub open spec fn four_digit_year(secs: int) -> bool {
    -62167219200 <= secs <= 253402300799
}

/// Formats the UTC instant `secs` seconds after the epoch with chrono:
/// `DateTime::from_timestamp(secs, 0)`, `None` when chrono's range does not
/// hold it, then `to_rfc3339_opts(SecondsFormat::Secs, true)`. The text is
/// named by `utc_seconds_text`. For an instant in the years 0 to 9999 the
/// text has a four-digit year, and reading it back with
/// `parse_from_rfc3339` gives the same instant; a year outside them is
/// written with a sign, which `parse_from_rfc3339` refuses, so nothing is
/// claimed of reading those back.
#[verifier::external_body]
pub(crate) fn format_utc_seconds(secs: i64) -> (r: Option<String>)
    ensures
        match r {
            Some(t) => utc_seconds_text(secs) == Some(t@) && (four_digit_year(secs as int) ==> rfc3339_instant(
                t@,
            ) == Some((secs, 0u32))),
            None => utc_seconds_text(secs) is None,
        },
{
    match chrono::DateTime::from_timestamp(secs, 0) {
        Some(t) => Some(t.to_rfc3339_opts(chrono::SecondsFormat::Secs, true)),
        None => None,
    }
}

} // verus!
