use vstd::prelude::*;
use vstd::arithmetic::power2::{lemma2_to64, lemma2_to64_rest, lemma_pow2_strictly_increases, lemma_pow2_unfold, pow2};

verus! {

/// Retries of an operation: at most `max_attempts` tries (at least one),
/// with a pause that doubles after each failure.
#[derive(Debug, PartialEq, Eq)]
pub struct Retry {
    pub max_attempts: u32,
    /// The number of the try that is under way, from 0.
    pub attempt: u32,
}

/// What to do after a try.
#[derive(Debug, PartialEq, Eq)]
pub enum RetryStep<T> {
    /// Stop with this result: the first success, or the last failure.
    Finished(Result<T, String>),
    /// Pause this long, then try again.
    Wait { millis: u64 },
}

/// The pause after failed try number `attempt`: 100 ms doubled per try.
pub open spec fn backoff_ms(attempt: nat) -> nat {
    100 * pow2(attempt)
}

/// The number of tries that a limit allows.
pub open spec fn tries_allowed(max_attempts: u32) -> int {
    if max_attempts == 0 {
        1
    } else {
        max_attempts as int
    }
}

impl Retry {
    /// The try under way is one that the limit allows.
    pub open spec fn well_formed(self) -> bool {
        self.attempt < tries_allowed(self.max_attempts)
    }

    /// Whether a failure of the try under way would call for a pause that
    /// does not fit in a `u64` of milliseconds: a pause is due and the try
    /// is number 58 or later.
    pub open spec fn pause_overflows(self) -> bool {
        self.attempt + 1 < self.max_attempts && self.attempt > 57
    }

    /// Whether a failure of the try under way would overflow its pause; a
    /// caller tests this before reporting a failure.
    pub fn failure_overflows(&self) -> (b: bool)
        ensures
            b == self.pause_overflows(),
    {
        self.attempt < u32::MAX && self.attempt + 1 < self.max_attempts && self.attempt > 57
    }

    /// Retries with at most `max_attempts` tries.
    pub fn new(max_attempts: u32) -> (r: Retry)
        ensures
            r.max_attempts == max_attempts,
            r.attempt == 0,
            r.well_formed(),
    {
        Retry { max_attempts, attempt: 0 }
    }

    /// Records the outcome of the try under way and says what comes next:
    /// a success ends the retries; a failure is followed by a pause and a
    /// new try while the limit allows, and is the final result otherwise.
    /// A failure whose pause would overflow (`pause_overflows`) is left out.
    pub fn record<T>(&mut self, outcome: Result<T, String>) -> (step: RetryStep<T>)
        requires
            old(self).well_formed(),
            outcome is Err ==> !old(self).pause_overflows(),
        ensures
            final(self).well_formed(),
            final(self).max_attempts == old(self).max_attempts,
            match outcome {
                Ok(v) => step == RetryStep::Finished(Ok::<T, String>(v)) && *final(self) == *old(self),
                Err(e) => if old(self).attempt + 1 < old(self).max_attempts {
                    &&& step == RetryStep::<T>::Wait {
                        millis: backoff_ms(old(self).attempt as nat) as u64,
                    }
                    &&& final(self).attempt == old(self).attempt + 1
                } else {
                    step == RetryStep::Finished(Err::<T, String>(e)) && *final(self) == *old(self)
                },
            },
    {
        match outcome {
            Ok(v) => RetryStep::Finished(Ok(v)),
            Err(e) => {
                if self.attempt + 1 < self.max_attempts {
                    let millis = backoff(self.attempt);
                    self.attempt = self.attempt + 1;
                    RetryStep::Wait { millis }
                } else {
                    RetryStep::Finished(Err(e))
                }
            },
        }
    }
}

/// The pause after failed try number `attempt`.
pub fn backoff(attempt: u32) -> (millis: u64)
    requires
        attempt <= 57,
    ensures
        millis == backoff_ms(attempt as nat),
{
    let mut p: u64 = 1;
    let mut i: u32 = 0;
    proof {
        lemma2_to64();
        lemma2_to64_rest();
    }
    while i < attempt
        invariant
            i <= attempt <= 57,
            p == pow2(i as nat),
            pow2(57) == 0x200_0000_0000_0000,
        decreases attempt - i,
    {
        proof {
            lemma_pow2_unfold((i + 1) as nat);
            if i + 1 < 57 {
                lemma_pow2_strictly_increases((i + 1) as nat, 57);
            }
        }
        p = p * 2;
        i = i + 1;
    }
    100 * p
}

/// The pauses double from one try to the next.
pub proof fn lemma_backoff_doubles(attempt: nat)
    ensures
        backoff_ms(attempt + 1) == 2 * backoff_ms(attempt),
{
    lemma_pow2_unfold(attempt + 1);
}

} // verus!
