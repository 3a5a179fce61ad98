//! Times shown to the user, as RFC 3339 text in UTC.
use vstd::prelude::*;

use crate::text::string_of;

verus! {

/// The RFC 3339 text that the `time` crate gives for the UTC instant
/// `nanos` nanoseconds after the Unix epoch (before it when negative), or
/// `None` when the instant or its year cannot be written that way.
pub uninterp spec fn rfc3339_utc(nanos: i128) -> Option<Seq<char>>;

/// Calls `time::OffsetDateTime::from_unix_timestamp_nanos` and formats the
/// instant with `time`'s `Rfc3339` description. Trusted: the result is
/// `rfc3339_utc` of the instant, a function of it alone; nothing more is
/// stated of the text.
#[verifier::external_body]
fn format_rfc3339(nanos: i128) -> (r: Option<String>)
    ensures
        match r {
            Some(t) => rfc3339_utc(nanos) == Some(t@),
            None => rfc3339_utc(nanos) is None,
        },
{
    time::OffsetDateTime::from_unix_timestamp_nanos(nanos).ok().and_then(
        |d| d.format(&time::format_description::well_known::Rfc3339).ok(),
    )
}

/// The text of the fixed time used when the clock cannot be written.
pub open spec fn fallback_time() -> Seq<char> {
    "2026-06-12T00:00:00Z"@
}

/// The formatted time, or `now` when there is none.
pub fn text_or_now(formatted: Option<String>, now: &str) -> (r: String)
    ensures
        r@ == match formatted {
            Some(t) => t@,
            None => now@,
        },
{
    match formatted {
        Some(t) => t,
        None => string_of(now),
    }
}

/// The formatted time, or the fixed fallback time when there is none.
pub fn text_or_fallback(formatted: Option<String>) -> (r: String)
    ensures
        r@ == match formatted {
            Some(t) => t@,
            None => fallback_time(),
        },
{
    match formatted {
        Some(t) => t,
        None => string_of("2026-06-12T00:00:00Z"),
    }
}

/// A file's modification time as shown: its RFC 3339 text, or `now` when
/// the time is unknown or cannot be written.
pub fn format_modified_at(modified_nanos: Option<i128>, now: &str) -> (r: String)
    ensures
        r@ == match modified_nanos {
            Some(n) => match rfc3339_utc(n) {
                Some(t) => t,
                None => now@,
            },
            None => now@,
        },
{
    match modified_nanos {
        Some(n) => text_or_now(format_rfc3339(n), now),
        None => string_of(now),
    }
}

/// The current time as shown, from the clock's reading `now_nanos`: its
/// RFC 3339 text, or the fixed fallback time when it cannot be written.
pub fn now_rfc3339(now_nanos: i128) -> (r: String)
    ensures
        r@ == match rfc3339_utc(now_nanos) {
            Some(t) => t,
            None => fallback_time(),
        },
{
    text_or_fallback(format_rfc3339(now_nanos))
}

} // verus!
