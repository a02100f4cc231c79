//! Instants in time as plain values: Unix seconds and the nanoseconds past
//! them, ordered as the instants are.
use vstd::prelude::*;

verus! {

/// The instant that an RFC 3339 text names, as Unix seconds and nanoseconds,
/// or `None` when the text is not RFC 3339.
pub uninterp spec fn spec_rfc3339_instant(s: Seq<char>) -> Option<(i64, u32)>;

/// Parses an RFC 3339 timestamp.
/// Trusted: calls `chrono::DateTime::parse_from_rfc3339` and reads the
/// instant's `timestamp` and `timestamp_subsec_nanos`; the result is named
/// by `spec_rfc3339_instant`, a function of the text alone.
#[verifier::external_body]
pub(crate) fn rfc3339_instant(s: &str) -> (r: Option<(i64, u32)>)
    ensures
        r == spec_rfc3339_instant(s@),
{
    match chrono::DateTime::parse_from_rfc3339(s) {
        Ok(t) => Some((t.timestamp(), t.timestamp_subsec_nanos())),
        Err(_) => None,
    }
}

/// The instant `days` days before `now`, or `None` when either lies outside
/// the range of dates that can be represented.
pub uninterp spec fn spec_days_before(now: (i64, u32), days: i64) -> Option<(i64, u32)>;

/// Steps back whole days from an instant.
/// Trusted: builds the instant with `chrono::DateTime::from_timestamp`,
/// subtracts `chrono::TimeDelta::days(days)` with `checked_sub_signed`, and
/// reads the result's `timestamp` and `timestamp_subsec_nanos`; the result
/// is named by `spec_days_before`, a function of the arguments alone. Of an
/// instant that is not a leap second (nanoseconds below one second), chrono
/// steps back exactly `days` times 86 400 seconds and keeps the nanoseconds;
/// when the result is out of chrono's range, and how a leap second is
/// stepped back, is left to the name.
#[verifier::external_body]
pub(crate) fn days_before(now: (i64, u32), days: i64) -> (r: Option<(i64, u32)>)
    requires
        0 <= days <= 1_000_000,
    ensures
        r == spec_days_before(now, days),
        now.1 < 1_000_000_000 ==> (r matches Some(c) ==> c.0 == now.0 - 86_400 * days && c.1 == now.1),
{
    match chrono::DateTime::from_timestamp(now.0, now.1) {
        Some(t) => match t.checked_sub_signed(chrono::TimeDelta::days(days)) {
            Some(c) => Some((c.timestamp(), c.timestamp_subsec_nanos())),
            None => None,
        },
        None => None,
    }
}

/// `a` is not later than `b`.
pub open spec fn instant_le(a: (i64, u32), b: (i64, u32)) -> bool {
    a.0 < b.0 || (a.0 == b.0 && a.1 <= b.1)
}

pub fn instant_not_after(a: (i64, u32), b: (i64, u32)) -> (r: bool)
    ensures
        r == instant_le(a, b),
{
    a.0 < b.0 || (a.0 == b.0 && a.1 <= b.1)
}

} // verus!
