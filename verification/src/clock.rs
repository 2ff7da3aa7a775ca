//! Points in time as UNIX timestamps (whole seconds), and the calls into
//! `chrono` that read the clock and write a timestamp as text.
use vstd::prelude::*;

verus! {

/// The earliest timestamp a `chrono::DateTime<Utc>` can hold
/// (January 1 of year -262143, 00:00:00).
pub open spec fn min_timestamp() -> int {
    -8334601315200
}

/// The latest timestamp (in whole seconds) a `chrono::DateTime<Utc>` can hold
/// (December 31 of year 262142, 23:59:59).
pub open spec fn max_timestamp() -> int {
    8210266876799
}

/// Whether `chrono` can represent the timestamp `secs`.
pub open spec fn timestamp_in_range(secs: int) -> bool {
    min_timestamp() <= secs <= max_timestamp()
}

/// The text that `chrono` writes for the `DateTime<Utc>` that lies `nanos`
/// nanoseconds after the timestamp `secs` (for instance
/// `2018-06-01 12:00:00 UTC`, or `2018-06-01 12:00:00.500 UTC`).
pub uninterp spec fn utc_text(secs: i64, nanos: u32) -> Seq<char>;

/// Whether a count of nanoseconds is a fraction of a second.
pub open spec fn subsecond(nanos: u32) -> bool {
    nanos < 1_000_000_000
}

/// `chrono::DateTime::<Utc>::from_timestamp(secs, nanos)`, written with its
/// `Display` impl. For a fraction of a second, `from_timestamp` gives `None`
/// exactly outside the range of `DateTime<Utc>`; the text itself is left to
/// `chrono` and named `utc_text`.
#[verifier::external_body]
pub(crate) fn format_utc(secs: i64, nanos: u32) -> (r: Option<String>)
    requires
        subsecond(nanos),
    ensures
        r is Some <==> timestamp_in_range(secs as int),
        r matches Some(s) ==> s@ == utc_text(secs, nanos),
{
    match chrono::DateTime::<chrono::Utc>::from_timestamp(secs, nanos) {
        Some(d) => Some(d.to_string()),
        None => None,
    }
}

/// `chrono::Utc::now()`, as its timestamp and the nanoseconds past it: the
/// current time. Nothing is claimed of it but that it lies in the range of
/// `DateTime<Utc>`, as every value of that type does, and that the
/// nanoseconds are a fraction of a second (`now` takes them from
/// `Duration::subsec_nanos`).
#[verifier::external_body]
pub(crate) fn now_timestamp() -> (t: (i64, u32))
    ensures
        timestamp_in_range(t.0 as int),
        subsecond(t.1),
{
    let now = chrono::Utc::now();
    (now.timestamp(), now.timestamp_subsec_nanos())
}

} // verus!
