//! Instants on the UTC time line.

use crate::text::text_of;
use vstd::prelude::*;

verus! {

/// An instant, as whole seconds since the Unix epoch and the nanoseconds
/// that have passed since that second began.
#[derive(Clone, Copy, Debug, PartialEq, Eq, Structural)]
pub struct Timestamp {
    pub secs: i64,
    pub nanos: u32,
}

impl Timestamp {
    /// The position of the instant on the time line, in nanoseconds since the epoch.
    pub open spec fn instant(self) -> int {
        self.secs * 1_000_000_000 + self.nanos
    }

    /// The instant that lies `secs` whole seconds after the epoch.
    pub fn from_epoch_seconds(secs: i64) -> (t: Timestamp)
        ensures
            t == (Timestamp { secs, nanos: 0 }),
    {
        Timestamp { secs, nanos: 0 }
    }

    /// Nanoseconds since the epoch, in a type wide enough for every instant.
    pub fn nanos_since_epoch(&self) -> (n: i128)
        ensures
            n == self.instant(),
    {
        let secs: i128 = self.secs as i128;
        let nanos: i128 = self.nanos as i128;
        assert(-0x8000_0000_0000_0000 * 1_000_000_000 <= secs * 1_000_000_000
            <= 0x7fff_ffff_ffff_ffff * 1_000_000_000) by (nonlinear_arith)
            requires
                -0x8000_0000_0000_0000 <= secs <= 0x7fff_ffff_ffff_ffff,
        ;
        secs * 1_000_000_000 + nanos
    }

    /// Whether this instant lies strictly before `other`.
    pub fn is_before(&self, other: &Timestamp) -> (b: bool)
        ensures
            b == (self.instant() < other.instant()),
    {
        self.nanos_since_epoch() < other.nanos_since_epoch()
    }
}

/// The earlier of two optional instants; an absent one never wins over a
/// present one, and the result is absent only when both are.
pub open spec fn earliest(a: Option<Timestamp>, b: Option<Timestamp>) -> Option<int> {
    match (a, b) {
        (Some(x), Some(y)) => Some(
            if x.instant() <= y.instant() {
                x.instant()
            } else {
                y.instant()
            },
        ),
        (Some(x), None) => Some(x.instant()),
        (None, Some(y)) => Some(y.instant()),
        (None, None) => None,
    }
}

/// The RFC 3339 text of the instant `secs` seconds and `nanos` nanoseconds
/// after the epoch, as `chrono` renders it, or `None` where `chrono` cannot
/// represent that instant.
pub uninterp spec fn rfc3339_text(secs: i64, nanos: u32) -> Option<Seq<char>>;

/// Reads the system clock through `chrono::Utc::now`. Nothing is claimed of
/// the instant that comes back; `chrono` gives up when the clock is set
/// before the epoch.
#[verifier::external_body]
pub(crate) fn now() -> Timestamp {
    let t = chrono::Utc::now();
    Timestamp { secs: t.timestamp(), nanos: t.timestamp_subsec_nanos() }
}

/// Renders an instant with `chrono::DateTime::to_rfc3339`, after
/// `chrono::DateTime::from_timestamp` has accepted it. The text depends on
/// the two numbers alone, so the contract only gives it its name.
#[verifier::external_body]
pub(crate) fn rfc3339(secs: i64, nanos: u32) -> (r: Option<String>)
    ensures
        text_of(r) == rfc3339_text(secs, nanos),
{
    match chrono::DateTime::from_timestamp(secs, nanos) {
        Some(t) => Some(t.to_rfc3339()),
        None => None,
    }
}

} // verus!
