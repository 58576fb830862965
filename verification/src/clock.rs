//! Durations and stopwatches.
use crate::scalar::Scalar;
use vstd::prelude::*;

verus! {

/// The longest duration, in nanoseconds: the largest count of seconds and a fraction just below
/// one more.
pub const LONGEST: u128 = 18_446_744_073_709_551_615_999_999_999;

/// A span of time.
#[derive(Clone, Copy, PartialEq, Eq, Structural, Debug)]
pub struct Duration {
    nanos: u128,
}

/// A clock that counts up from its last reset.
#[derive(Clone, Copy, PartialEq, Eq, Structural, Debug)]
pub struct Stopwatch {
    /// The time counted so far.
    pub elapsed: Duration,
    /// Whether the clock stands still.
    pub paused: bool,
}

/// How far one step reaches in time.
#[derive(Clone, Copy, PartialEq, Eq, Structural, Debug)]
pub struct Time {
    /// The length of the step.
    pub delta: Duration,
    /// The length of the step in seconds.
    pub delta_secs: Scalar,
}

pub closed spec fn spec_span(nanos: u128) -> Duration {
    Duration { nanos }
}

/// The duration of so many nanoseconds.
#[verifier::when_used_as_spec(spec_span)]
pub fn span(nanos: u128) -> (r: Duration)
    ensures
        r == spec_span(nanos),
{
    Duration { nanos }
}

/// A duration is made from its nanoseconds and gives them back.
pub broadcast proof fn lemma_span(nanos: u128)
    ensures
        #[trigger] span(nanos).nanos() == nanos,
{
}

impl Duration {
    pub closed spec fn spec_nanos(self) -> u128 {
        self.nanos
    }

    /// The nanoseconds of the duration.
    #[verifier::when_used_as_spec(spec_nanos)]
    pub fn nanos(self) -> (r: u128)
        ensures
            r == self.spec_nanos(),
    {
        self.nanos
    }

    #[verifier::opaque]
    pub open spec fn spec_lt(self, rhs: Duration) -> bool {
        self.nanos() < rhs.nanos()
    }

    /// Whether `self` is shorter than `rhs`.
    #[verifier::when_used_as_spec(spec_lt)]
    pub fn lt(self, rhs: Duration) -> (r: bool)
        ensures
            r == self.spec_lt(rhs),
    {
        reveal(Duration::spec_lt);
        self.nanos < rhs.nanos
    }

    #[verifier::opaque]
    pub open spec fn spec_plus(self, rhs: Duration) -> Duration {
        if self.nanos() + rhs.nanos() > LONGEST {
            span(LONGEST)
        } else {
            span((self.nanos() + rhs.nanos()) as u128)
        }
    }

    /// The sum, or the longest duration where the sum is longer.
    #[verifier::when_used_as_spec(spec_plus)]
    pub fn plus(self, rhs: Duration) -> (r: Duration)
        ensures
            r == self.spec_plus(rhs),
    {
        reveal(Duration::spec_plus);
        if self.nanos > LONGEST || rhs.nanos > LONGEST - self.nanos {
            span(LONGEST)
        } else {
            span(self.nanos + rhs.nanos)
        }
    }

    #[verifier::opaque]
    pub open spec fn spec_minus(self, rhs: Duration) -> Duration {
        if self.nanos() < rhs.nanos() {
            span(0)
        } else {
            span((self.nanos() - rhs.nanos()) as u128)
        }
    }

    /// The difference, or no time where `rhs` is longer.
    #[verifier::when_used_as_spec(spec_minus)]
    pub fn minus(self, rhs: Duration) -> (r: Duration)
        ensures
            r == self.spec_minus(rhs),
    {
        reveal(Duration::spec_minus);
        if self.nanos < rhs.nanos {
            span(0)
        } else {
            span(self.nanos - rhs.nanos)
        }
    }
}

impl Stopwatch {
    #[verifier::opaque]
    pub open spec fn spec_ticked(self, delta: Duration) -> Stopwatch {
        if self.paused {
            self
        } else {
            Stopwatch { elapsed: self.elapsed.plus(delta), paused: false }
        }
    }

    /// The clock after `delta` more; a clock that stands still does not count.
    #[verifier::when_used_as_spec(spec_ticked)]
    pub fn ticked(self, delta: Duration) -> (r: Stopwatch)
        ensures
            r == self.spec_ticked(delta),
    {
        reveal(Stopwatch::spec_ticked);
        if self.paused {
            self
        } else {
            Stopwatch { elapsed: self.elapsed.plus(delta), paused: false }
        }
    }

    #[verifier::opaque]
    pub open spec fn spec_with_elapsed(self, elapsed: Duration) -> Stopwatch {
        Stopwatch { elapsed, paused: self.paused }
    }

    /// The clock set to another count.
    #[verifier::when_used_as_spec(spec_with_elapsed)]
    pub fn with_elapsed(self, elapsed: Duration) -> (r: Stopwatch)
        ensures
            r == self.spec_with_elapsed(elapsed),
    {
        reveal(Stopwatch::spec_with_elapsed);
        Stopwatch { elapsed, paused: self.paused }
    }

    #[verifier::opaque]
    pub open spec fn spec_restarted(self) -> Stopwatch {
        self.with_elapsed(span(0))
    }

    /// The clock set back to zero.
    #[verifier::when_used_as_spec(spec_restarted)]
    pub fn restarted(self) -> (r: Stopwatch)
        ensures
            r == self.spec_restarted(),
    {
        reveal(Stopwatch::spec_restarted);
        self.with_elapsed(span(0))
    }
}

} // verus!
