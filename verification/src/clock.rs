//! Spans of time and readings of a monotonic clock.

use vstd::prelude::*;

verus! {

/// A span of time. A reading of a clock is the span since that clock's origin.
#[derive(Debug, Clone, Copy, PartialEq, Eq, Structural)]
pub struct Duration {
    pub nanos: u128,
}

/// The sum of two spans, or the longest span where it would be longer.
pub open spec fn later(start: Duration, span: Duration) -> Duration {
    if start.nanos + span.nanos <= u128::MAX {
        Duration { nanos: (start.nanos + span.nanos) as u128 }
    } else {
        Duration { nanos: u128::MAX }
    }
}

/// The time from `now` to `deadline`, or nothing where it has passed.
pub open spec fn until(deadline: Duration, now: Duration) -> Duration {
    if deadline.nanos > now.nanos {
        Duration { nanos: (deadline.nanos - now.nanos) as u128 }
    } else {
        Duration { nanos: 0 }
    }
}

/// The shorter of two spans.
pub open spec fn shorter(left: Duration, right: Duration) -> Duration {
    if left.nanos <= right.nanos {
        left
    } else {
        right
    }
}

impl Duration {
    pub fn from_nanos(nanos: u128) -> (span: Duration)
        ensures
            span.nanos == nanos,
    {
        Duration { nanos }
    }

    pub fn from_millis(millis: u64) -> (span: Duration)
        ensures
            span.nanos == millis * 1_000_000,
    {
        Duration { nanos: (millis as u128) * 1_000_000 }
    }

    pub fn from_secs(secs: u64) -> (span: Duration)
        ensures
            span.nanos == secs * 1_000_000_000,
    {
        Duration { nanos: (secs as u128) * 1_000_000_000 }
    }

    pub fn is_zero(self) -> (zero: bool)
        ensures
            zero == (self.nanos == 0),
    {
        self.nanos == 0
    }

    /// The reading `span` after this one.
    pub fn plus(self, span: Duration) -> (sum: Duration)
        ensures
            sum == later(self, span),
    {
        Duration { nanos: self.nanos.saturating_add(span.nanos) }
    }

    /// The span from `now` to this reading.
    pub fn remaining(self, now: Duration) -> (span: Duration)
        ensures
            span == until(self, now),
    {
        Duration { nanos: self.nanos.saturating_sub(now.nanos) }
    }

    /// The shorter of two spans.
    pub fn at_most(self, limit: Duration) -> (span: Duration)
        ensures
            span == shorter(self, limit),
    {
        if self.nanos <= limit.nanos {
            self
        } else {
            limit
        }
    }
}

/// Times add up and run out as numbers do, but for the longest span.
pub proof fn times_add_up(start: Duration, span: Duration)
    ensures
        start.nanos + span.nanos <= u128::MAX ==> later(start, span).nanos == start.nanos
            + span.nanos,
        start.nanos + span.nanos > u128::MAX ==> later(start, span).nanos == u128::MAX,
        start.nanos >= span.nanos ==> until(start, span).nanos == start.nanos - span.nanos,
        start.nanos < span.nanos ==> until(start, span).nanos == 0,
        shorter(start, span).nanos <= start.nanos,
        shorter(start, span).nanos <= span.nanos,
        shorter(start, span) == start || shorter(start, span) == span,
{
}

} // verus!
