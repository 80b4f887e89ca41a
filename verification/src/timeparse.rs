//! Close-time parsing. Collectors receive close times as RFC 3339 text and
//! store them as Unix-second timestamps; the parse itself is done by
//! chrono.

use vstd::prelude::*;

verus! {

/// The instant, in Unix seconds, that an RFC 3339 date-and-time string
/// denotes, or `None` when the text is not a valid RFC 3339 value. The
/// result is a function of the characters alone.
pub uninterp spec fn rfc3339_secs(s: Seq<char>) -> Option<i64>;

/// Relies on chrono's `DateTime::parse_from_rfc3339` to parse the text and
/// on `DateTime::timestamp` to read the parsed instant as Unix seconds.
#[verifier::external_body]
pub(crate) fn parse_rfc3339_secs(s: &str) -> (r: Option<i64>)
    ensures
        r == rfc3339_secs(s@),
{
    chrono::DateTime::parse_from_rfc3339(s).ok().map(|dt| dt.timestamp())
}

} // verus!
