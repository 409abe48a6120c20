//! Points in time.
use vstd::prelude::*;

verus! {

/// A point in time, in UTC: whole seconds since 1970 and the nanoseconds within that second.
#[derive(Clone, Copy, PartialEq, Eq, Structural, PartialOrd, Ord, Hash, Debug)]
pub struct Timestamp {
    pub secs: i64,
    pub nanos: u32,
}

/// `chrono::Utc::now` reads the clock. Nothing is claimed of the time it gives.
#[verifier::external_body]
pub(crate) fn now() -> (t: Timestamp) {
    let t = chrono::Utc::now();
    Timestamp { secs: t.timestamp(), nanos: t.timestamp_subsec_nanos() }
}

/// What `chrono` writes for a point in time, as an RFC 3339 text in UTC; nothing where the point
/// lies outside what it can represent.
pub uninterp spec fn rfc3339_text(secs: i64, nanos: u32) -> Option<Seq<char>>;

/// The seconds and nanoseconds that `chrono` reads from an RFC 3339 text, where it is one.
pub uninterp spec fn rfc3339_time(text: Seq<char>) -> Option<(i64, u32)>;

/// Whether a point in time lies in the years that RFC 3339 can write with four digits, from year 1
/// on, and is not within a leap second.
pub open spec fn writable(t: Timestamp) -> bool {
    -62135596800 <= t.secs <= 253402300799 && t.nanos < 1_000_000_000
}

/// `chrono::DateTime::from_timestamp` and `to_rfc3339` write a point in time out. Points within
/// the years 1 to 9999 and outside leap seconds are always written, and read back as they were.
#[verifier::external_body]
pub(crate) fn format_rfc3339(t: Timestamp) -> (out: Option<String>)
    ensures
        crate::text::opt_text(out) == rfc3339_text(t.secs, t.nanos),
        writable(t) ==> out is Some && rfc3339_time(out->0@) == Some((t.secs, t.nanos)),
{
    chrono::DateTime::from_timestamp(t.secs, t.nanos).map(|d| d.to_rfc3339())
}

/// `chrono::DateTime::parse_from_rfc3339` reads a point in time.
#[verifier::external_body]
pub(crate) fn parse_rfc3339(text: &str) -> (out: Option<Timestamp>)
    ensures
        (match out {
            Some(t) => Some((t.secs, t.nanos)),
            None => None,
        }) == rfc3339_time(text@),
{
    match chrono::DateTime::parse_from_rfc3339(text) {
        Ok(d) => Some(Timestamp { secs: d.timestamp(), nanos: d.timestamp_subsec_nanos() }),
        Err(_) => None,
    }
}

/// Whether a number of seconds since 1970 lies within the years -262143 to 262142.
pub open spec fn representable(secs: int) -> bool {
    -8334601228800 <= secs <= 8210266876799
}

/// The point in time that many seconds after 1970, where it can be represented.
pub open spec fn at_secs(secs: int, nanos: int) -> Option<Timestamp> {
    if representable(secs) {
        Some(Timestamp { secs: secs as i64, nanos: nanos as u32 })
    } else {
        None
    }
}

/// `chrono::TimeZone::timestamp_opt` in UTC takes whole seconds since 1970. It gives a point in
/// time exactly within the years that `chrono` represents.
#[verifier::external_body]
pub(crate) fn from_secs(secs: i64) -> (out: Option<Timestamp>)
    ensures
        out == at_secs(secs as int, 0),
{
    match chrono::TimeZone::timestamp_opt(&chrono::Utc, secs, 0).single() {
        Some(d) => Some(Timestamp { secs: d.timestamp(), nanos: d.timestamp_subsec_nanos() }),
        None => None,
    }
}

/// `chrono::TimeZone::timestamp_millis_opt` in UTC takes milliseconds since 1970. It gives a point
/// in time exactly within the years that `chrono` represents; what does not make a whole second
/// counts forward from the second before.
#[verifier::external_body]
pub(crate) fn from_millis(millis: i64) -> (out: Option<Timestamp>)
    ensures
        out == at_secs(millis as int / 1000, millis as int % 1000 * 1_000_000),
{
    match chrono::TimeZone::timestamp_millis_opt(&chrono::Utc, millis).single() {
        Some(d) => Some(Timestamp { secs: d.timestamp(), nanos: d.timestamp_subsec_nanos() }),
        None => None,
    }
}

/// `chrono::Utc::now` and `to_rfc3339` write the time of the clock. Nothing is claimed of it.
#[verifier::external_body]
pub(crate) fn now_rfc3339() -> (out: String) {
    chrono::Utc::now().to_rfc3339()
}

} // verus!
