//! Instants as text.

use vstd::prelude::*;

verus! {

/// The text of an instant, given in seconds and nanoseconds since the epoch;
/// none for an instant outside the calendar.
pub uninterp spec fn rfc3339_text(secs: i64, nanos: u32) -> Option<Seq<char>>;

/// `chrono::DateTime::<Utc>::from_timestamp`, and `to_rfc3339` on the instant
/// that it gives: the text depends on the two numbers alone, and neither call
/// panics.
#[verifier::external_body]
fn format_rfc3339(secs: i64, nanos: u32) -> (r: Option<String>)
    ensures
        match r {
            Some(text) => rfc3339_text(secs, nanos) == Some(text@),
            None => rfc3339_text(secs, nanos) is None,
        },
{
    chrono::DateTime::<chrono::Utc>::from_timestamp(secs, nanos).map(|t| t.to_rfc3339())
}

/// The text that the ledger dates a record with: empty for an instant outside
/// the calendar.
pub open spec fn date_text(secs: i64, nanos: u32) -> Seq<char> {
    match rfc3339_text(secs, nanos) {
        Some(t) => t,
        None => Seq::empty(),
    }
}

/// The text of an instant, in the form of RFC 3339.
pub fn timestamp(secs: i64, nanos: u32) -> (r: String)
    ensures
        r@ == date_text(secs, nanos),
{
    match format_rfc3339(secs, nanos) {
        Some(text) => text,
        None => {
            let r = String::new();
            assert(r@ =~= Seq::empty());
            r
        },
    }
}

/// A record is dated with the text of its instant, and with nothing where the
/// calendar has no such instant.
pub proof fn records_are_dated_by_the_calendar(secs: i64, nanos: u32)
    ensures
        rfc3339_text(secs, nanos) matches Some(t) ==> date_text(secs, nanos) == t,
        rfc3339_text(secs, nanos) is None ==> date_text(secs, nanos).len() == 0,
{
}

} // verus!
