//! Points in time and spans between them, in nanoseconds.
use vstd::prelude::*;

verus! {

/// The longest span that the clock reports: the longest span that `std::time::Duration` holds.
pub const CLOCK_LIMIT: u128 = 18_446_744_073_709_551_615_999_999_999;

/// A span of time.
#[derive(Clone, Copy, PartialEq, Eq, Structural, Debug)]
pub struct Duration {
    pub nanos: u128,
}

/// A point in time, counted from the moment at which a [`Clock`] was started.
#[derive(Clone, Copy, PartialEq, Eq, Structural, Debug)]
pub struct Moment {
    pub nanos: u128,
}

impl Duration {
    /// The span of `secs` seconds.
    pub fn from_secs(secs: u64) -> (r: Duration)
        ensures
            r.nanos == secs * 1_000_000_000,
    {
        Duration { nanos: secs as u128 * 1_000_000_000 }
    }
}

impl Moment {
    /// The span from `earlier` to `self`, and the empty span where `earlier` is the later of
    /// the two.
    pub open spec fn since(self, earlier: Moment) -> Duration {
        Duration {
            nanos: if earlier.nanos <= self.nanos {
                (self.nanos - earlier.nanos) as u128
            } else {
                0
            },
        }
    }

    /// The point in time `span` after `self`.
    pub open spec fn after(self, span: Duration) -> Moment {
        Moment { nanos: (self.nanos + span.nanos) as u128 }
    }

    /// Whether there is a point in time `span` after `self`.
    pub open spec fn has_room(self, span: Duration) -> bool {
        self.nanos + span.nanos <= u128::MAX
    }

    /// Computes [`Moment::since`].
    pub fn duration_since(self, earlier: Moment) -> (r: Duration)
        ensures
            r == self.since(earlier),
    {
        if earlier.nanos <= self.nanos {
            Duration { nanos: self.nanos - earlier.nanos }
        } else {
            Duration { nanos: 0 }
        }
    }

    /// The point in time `span` after `self`, if there is one.
    pub fn checked_add(self, span: Duration) -> (r: Option<Moment>)
        ensures
            r == (if self.has_room(span) {
                Some(self.after(span))
            } else {
                None::<Moment>
            }),
    {
        match self.nanos.checked_add(span.nanos) {
            Some(nanos) => Some(Moment { nanos }),
            None => None,
        }
    }
}

/// `web_time::Instant`, a reading of the host's monotonic clock. It is carried around and never
/// looked into.
#[verifier::external_type_specification]
#[verifier::external_body]
pub struct ExHostInstant(web_time::Instant);

/// Calls `web_time::Instant::now`. Nothing is claimed of the reading, which rests on the time of
/// the call.
#[verifier::external_body]
fn host_now() -> web_time::Instant {
    web_time::Instant::now()
}

/// Calls `web_time::Instant::elapsed` and hands the span back as nanoseconds. The contract claims
/// that the span is one that `std::time::Duration` can hold, and leaves open which one it is: that
/// rests on the time of the call.
#[verifier::external_body]
fn host_elapsed(start: &web_time::Instant) -> (nanos: u128)
    ensures
        nanos <= CLOCK_LIMIT,
{
    start.elapsed().as_nanos()
}

/// A monotonic clock that counts from the moment at which it was started.
pub struct Clock {
    start: web_time::Instant,
}

impl Clock {
    /// Starts a clock.
    pub fn start() -> Clock {
        Clock { start: host_now() }
    }

    /// Whether `now` is a point in time that the clock can show. Nothing but reading the clock
    /// tells.
    pub closed spec fn shows(&self, now: Moment) -> bool {
        now.nanos <= CLOCK_LIMIT
    }

    /// The present point in time.
    pub fn now(&self) -> (now: Moment)
        ensures
            self.shows(now),
            now.nanos <= CLOCK_LIMIT,
    {
        Moment { nanos: host_elapsed(&self.start) }
    }
}

} // verus!
