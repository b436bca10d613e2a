//! RFC 3339 timestamps as epoch milliseconds.
//!
//! Override expirations travel on the wire as RFC 3339 text and live in the
//! library as milliseconds since the Unix epoch. The conversions are done by
//! the `chrono` crate behind the two trusted functions below. The formatter
//! is relied on only within the range of instants whose UTC year has four
//! digits; the verified codec keeps every accepted record inside it.

use vstd::prelude::*;

verus! {

/// The instant an RFC 3339 byte string denotes, in milliseconds since the
/// Unix epoch, when it denotes one.
pub uninterp spec fn rfc3339_ms_of(s: Seq<u8>) -> Option<i64>;

/// The canonical RFC 3339 text of an epoch instant, at millisecond
/// precision, in UTC with a trailing `Z`.
pub uninterp spec fn rfc3339_bytes(ms: i64) -> Seq<u8>;

/// The first instant of year 0000 UTC, the earliest the codec accepts.
pub const EPOCH_MS_MIN: i64 = -62167219200000;

/// The last millisecond of year 9999 UTC, the latest the codec accepts.
pub const EPOCH_MS_MAX: i64 = 253402300799999;

/// Whether an instant lies in the range the codec accepts, within which
/// the formatter's output is guaranteed to read back exactly.
pub open spec fn epoch_ms_in_range(ms: i64) -> bool {
    EPOCH_MS_MIN <= ms <= EPOCH_MS_MAX
}

/// Relies on chrono's `DateTime::parse_from_rfc3339` and
/// `timestamp_millis`: together they compute the instant the text denotes,
/// from the text alone.
#[verifier::external_body]
pub fn parse_rfc3339_ms(s: &[u8]) -> (r: Option<i64>)
    ensures
        r == rfc3339_ms_of(s@),
{
    std::str::from_utf8(s)
        .ok()
        .and_then(|t| chrono::DateTime::parse_from_rfc3339(t).ok())
        .map(|dt| dt.timestamp_millis())
}

/// Relies on chrono's `DateTime::from_timestamp_millis`, which round-trips
/// with `timestamp_millis` and covers the whole accepted range, and on
/// `to_rfc3339_opts`: within that range the output is a four-digit-year
/// UTC timestamp in plain ASCII punctuation and digits, which
/// `parse_from_rfc3339` reads back as the same instant.
#[verifier::external_body]
pub fn format_rfc3339_ms(ms: i64) -> (r: Option<Vec<u8>>)
    ensures
        r matches Some(b) ==> b@ == rfc3339_bytes(ms),
        epoch_ms_in_range(ms) ==> r is Some,
        epoch_ms_in_range(ms) ==> (r matches Some(b) ==> rfc3339_ms_of(b@) == Some(ms) && (
        forall|i: int|
            0 <= i < b@.len() ==> 0x20 <= #[trigger] b@[i] < 0x7f && b@[i] != '"' as u8 && b@[i]
                != '\\' as u8)),
{
    chrono::DateTime::from_timestamp_millis(ms)
        .map(|dt| dt.to_rfc3339_opts(chrono::SecondsFormat::Millis, true).into_bytes())
}

} // verus!
