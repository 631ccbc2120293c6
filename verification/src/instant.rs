//! Instants on the time line, and how a timestamp's text becomes one.

use vstd::prelude::*;
use crate::error::RunError;

verus! {

/// A point on the UTC time line: whole seconds since the Unix epoch, and the
/// nanoseconds past that second. During a leap second `nanos` runs past
/// 999,999,999, so two instants are compared by `secs` first and `nanos` second.
#[derive(Clone, Copy, Debug, PartialEq, Eq, Structural)]
pub struct Instant {
    pub secs: i64,
    pub nanos: u32,
}

impl Instant {
    /// `self` lies strictly before `other`.
    pub open spec fn precedes(self, other: Instant) -> bool {
        self.secs < other.secs || (self.secs == other.secs && self.nanos < other.nanos)
    }

    /// `self` lies before `other` or is the same instant.
    pub open spec fn at_most(self, other: Instant) -> bool {
        !other.precedes(self)
    }

    /// Tells whether `self` lies strictly before `other`.
    pub fn is_before(&self, other: &Instant) -> (b: bool)
        ensures
            b == self.precedes(*other),
    {
        self.secs < other.secs || (self.secs == other.secs && self.nanos < other.nanos)
    }
}

/// What chrono makes of `text` read as an RFC 3339 date and time: the seconds
/// since the Unix epoch and the nanoseconds past that second of the instant it
/// denotes, or `None` where chrono refuses the text.
pub uninterp spec fn rfc3339_instant(text: Seq<char>) -> Option<(i64, u32)>;

/// The instant that `text` denotes as an RFC 3339 date and time, if it is one.
pub open spec fn instant_of(text: Seq<char>) -> Option<Instant> {
    match rfc3339_instant(text) {
        Some((secs, nanos)) => Some(Instant { secs, nanos }),
        None => None,
    }
}

/// Calls `chrono::DateTime::parse_from_rfc3339` on `text` and, where it
/// succeeds, reads the instant off with `DateTime::timestamp` and
/// `DateTime::timestamp_subsec_nanos`. The contract gives that outcome its name
/// and claims nothing else: chrono's parser reads only its argument. The pair
/// orders as chrono's `DateTime` values do, which compare the UTC date, then
/// the second of the day, then the nanoseconds.
#[verifier::external_body]
fn parse_rfc3339(text: &str) -> (r: Option<(i64, u32)>)
    ensures
        r == rfc3339_instant(text@),
{
    match chrono::DateTime::parse_from_rfc3339(text) {
        Ok(moment) => Some((moment.timestamp(), moment.timestamp_subsec_nanos())),
        Err(_) => None,
    }
}

/// Reads `text` as an RFC 3339 date and time.
///
/// Fails with `RunError::TimestampFormat` exactly when the text is no such
/// timestamp.
pub fn read_instant(text: &str) -> (r: Result<Instant, RunError>)
    ensures
        r == match instant_of(text@) {
            Some(at) => Ok::<Instant, RunError>(at),
            None => Err::<Instant, RunError>(RunError::TimestampFormat),
        },
{
    match parse_rfc3339(text) {
        Some((secs, nanos)) => Ok(Instant { secs, nanos }),
        None => Err(RunError::TimestampFormat),
    }
}

} // verus!
