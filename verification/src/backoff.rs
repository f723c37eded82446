//! Exponential backoff between retries.

use vstd::arithmetic::power2::{lemma2_to64, lemma_pow2_unfold, pow2};
use vstd::prelude::*;

use crate::clock::{now_nanos, max_clock_nanos, min_clock_nanos, MAX_INSTANT_NANOS, NANOS_PER_SECOND};

verus! {

/// The factor by which the backoff grows after each wait.
pub const MULTIPLIER: u64 = 2;

/// The longest backoff, in seconds.
pub const BACKOFF_LIMIT_SECONDS: u64 = 256;

/// The backoff a fresh schedule starts with, in seconds.
pub const INITIAL_BACKOFF_SECONDS: u64 = 2;

/// A retry schedule: each time a wait is asked for, the next retry moves one
/// backoff further away and the backoff doubles, up to a limit.
pub struct ExponentialBackoff {
    current_backoff_seconds: u64,
    next_retry_at: i128,
}

/// The backoff that follows `backoff`: doubled, but no longer than the limit.
pub open spec fn grown_backoff(backoff: u64) -> u64 {
    if backoff * MULTIPLIER <= BACKOFF_LIMIT_SECONDS {
        (backoff * MULTIPLIER) as u64
    } else {
        BACKOFF_LIMIT_SECONDS
    }
}

/// The wait until `next_retry_at`, seen at `now`: none once it has passed.
pub open spec fn wait_until(next_retry_at: int, now: int) -> int {
    if next_retry_at - now > 0 {
        next_retry_at - now
    } else {
        0
    }
}

impl ExponentialBackoff {
    #[verifier::type_invariant]
    spec fn bounded(self) -> bool {
        &&& 0 < self.current_backoff_seconds <= BACKOFF_LIMIT_SECONDS
        &&& min_clock_nanos() <= self.next_retry_at
    }

    /// The current backoff, in seconds.
    pub closed spec fn backoff_seconds(&self) -> u64 {
        self.current_backoff_seconds
    }

    /// The instant of the next retry, in nanoseconds.
    pub closed spec fn next_retry_at(&self) -> int {
        self.next_retry_at as int
    }

    /// Whether one more wait can be scheduled without moving the next retry
    /// past the last instant a date-time can hold.
    pub open spec fn can_advance(&self) -> bool {
        self.next_retry_at() + self.backoff_seconds() * NANOS_PER_SECOND <= MAX_INSTANT_NANOS
    }

    /// A schedule whose first retry is due at `now`.
    pub fn new_at(now: i128) -> (backoff: ExponentialBackoff)
        requires
            min_clock_nanos() <= now,
        ensures
            backoff.backoff_seconds() == INITIAL_BACKOFF_SECONDS,
            backoff.next_retry_at() == now,
    {
        ExponentialBackoff { current_backoff_seconds: INITIAL_BACKOFF_SECONDS, next_retry_at: now }
    }

    /// A schedule whose first retry is due now.
    pub fn new() -> (backoff: ExponentialBackoff)
        ensures
            backoff.backoff_seconds() == INITIAL_BACKOFF_SECONDS,
            min_clock_nanos() <= backoff.next_retry_at() <= max_clock_nanos(),
    {
        Self::new_at(now_nanos())
    }

    /// Whether one more wait can be scheduled (see `can_advance`).
    pub fn check_can_advance(&self) -> (ok: bool)
        ensures
            ok == self.can_advance(),
    {
        proof {
            use_type_invariant(self);
        }
        self.next_retry_at <= MAX_INSTANT_NANOS - (self.current_backoff_seconds as i128)
            * NANOS_PER_SECOND
    }

    /// The wait left until the next retry, seen at `now`; the next retry then
    /// moves one backoff later and the backoff grows.
    pub fn remaining_wait_at(&mut self, now: i128) -> (wait_nanos: u128)
        requires
            old(self).can_advance(),
            min_clock_nanos() <= now <= max_clock_nanos(),
        ensures
            wait_nanos == wait_until(old(self).next_retry_at(), now as int),
            final(self).next_retry_at() == old(self).next_retry_at() + old(self).backoff_seconds()
                * NANOS_PER_SECOND,
            final(self).backoff_seconds() == grown_backoff(old(self).backoff_seconds()),
    {
        proof {
            use_type_invariant(&*self);
        }
        let wait = self.next_retry_at - now;
        self.next_retry_at = self.next_retry_at + (self.current_backoff_seconds as i128)
            * NANOS_PER_SECOND;
        let doubled = self.current_backoff_seconds * MULTIPLIER;
        self.current_backoff_seconds = if doubled <= BACKOFF_LIMIT_SECONDS {
            doubled
        } else {
            BACKOFF_LIMIT_SECONDS
        };
        if wait > 0 {
            wait as u128
        } else {
            0
        }
    }

    /// The wait left until the next retry, seen now; the next retry then moves
    /// one backoff later and the backoff grows.
    pub fn remaining_wait(&mut self) -> (wait_nanos: u128)
        requires
            old(self).can_advance(),
        ensures
            exists|now: int|
                min_clock_nanos() <= now <= max_clock_nanos() && wait_nanos == wait_until(
                    old(self).next_retry_at(),
                    now,
                ),
            final(self).next_retry_at() == old(self).next_retry_at() + old(self).backoff_seconds()
                * NANOS_PER_SECOND,
            final(self).backoff_seconds() == grown_backoff(old(self).backoff_seconds()),
    {
        let now = now_nanos();
        self.remaining_wait_at(now)
    }

    /// Makes the next retry due at `now`; the backoff is kept.
    pub fn reset_at(&mut self, now: i128)
        requires
            min_clock_nanos() <= now,
        ensures
            final(self).next_retry_at() == now,
            final(self).backoff_seconds() == old(self).backoff_seconds(),
    {
        proof {
            use_type_invariant(&*self);
        }
        self.next_retry_at = now;
    }

    /// Makes the next retry due now; the backoff is kept.
    pub fn reset(&mut self)
        ensures
            min_clock_nanos() <= final(self).next_retry_at() <= max_clock_nanos(),
            final(self).backoff_seconds() == old(self).backoff_seconds(),
    {
        let now = now_nanos();
        self.reset_at(now);
    }
}

/// The backoff after `waits` waits from a fresh schedule.
pub open spec fn backoff_after(waits: nat) -> u64
    decreases waits,
{
    if waits == 0 {
        INITIAL_BACKOFF_SECONDS
    } else {
        grown_backoff(backoff_after((waits - 1) as nat))
    }
}

/// The backoff grows exponentially up to its limit: after `waits` waits from a
/// fresh schedule it is `2^(waits + 1)` seconds, or the limit of 256 seconds
/// once that is reached.
pub proof fn backoff_is_exponential_up_to_limit(waits: nat)
    ensures
        backoff_after(waits) == if waits < 7 {
            pow2(waits + 1)
        } else {
            BACKOFF_LIMIT_SECONDS as nat
        },
    decreases waits,
{
    lemma2_to64();
    if waits > 0 {
        backoff_is_exponential_up_to_limit((waits - 1) as nat);
        if waits < 7 {
            lemma_pow2_unfold(waits + 1);
        }
    }
}

/// Growing never shrinks a backoff within the limit and never passes the
/// limit.
pub proof fn backoff_growth_is_bounded(backoff: u64)
    requires
        0 < backoff <= BACKOFF_LIMIT_SECONDS,
    ensures
        backoff <= grown_backoff(backoff) <= BACKOFF_LIMIT_SECONDS,
        backoff < BACKOFF_LIMIT_SECONDS ==> backoff < grown_backoff(backoff),
{
}

/// While the network stays down, each check waits out one more backoff than
/// the one before: two waits measured at the same instant `now`, with the
/// retry not yet past, differ by exactly the backoff in force at the first,
/// and a wait at a later instant is never longer than one at an earlier
/// instant. A schedule reset at `now` owes no wait at `now`.
pub proof fn successive_waits_grow_by_the_backoff(next_retry_at: int, backoff: u64, now: int, later: int)
    requires
        next_retry_at >= now,
        now <= later,
    ensures
        wait_until(next_retry_at + backoff * NANOS_PER_SECOND, now) == wait_until(next_retry_at, now)
            + backoff * NANOS_PER_SECOND,
        wait_until(next_retry_at, later) <= wait_until(next_retry_at, now),
        wait_until(now, now) == 0,
        wait_until(next_retry_at, now) == next_retry_at - now,
{
}

/// A call on a retry schedule: asking for the remaining wait, or resetting
/// the next retry to the instant `now`.
pub enum BackoffCall {
    Wait,
    Reset { now: i128 },
}

/// The next retry (in nanoseconds) and the backoff (in seconds) after the
/// calls, in order, from a schedule due at `next` with backoff `backoff`, as
/// `remaining_wait` and `reset` change them.
pub open spec fn schedule_through(next: int, backoff: u64, calls: Seq<BackoffCall>) -> (int, u64)
    decreases calls.len(),
{
    if calls.len() == 0 {
        (next, backoff)
    } else {
        let (n, b) = schedule_through(next, backoff, calls.drop_last());
        match calls.last() {
            BackoffCall::Wait => (n + b * NANOS_PER_SECOND, grown_backoff(b)),
            BackoffCall::Reset { now } => (now as int, b),
        }
    }
}

/// How many of the calls ask for a wait.
pub open spec fn waits_in(calls: Seq<BackoffCall>) -> nat
    decreases calls.len(),
{
    if calls.len() == 0 {
        0
    } else {
        waits_in(calls.drop_last()) + if calls.last() is Wait {
            1nat
        } else {
            0nat
        }
    }
}

/// The total of the first `waits` backoffs of a fresh schedule, in seconds.
pub open spec fn total_backoff(waits: nat) -> nat
    decreases waits,
{
    if waits == 0 {
        0
    } else {
        total_backoff((waits - 1) as nat) + backoff_after((waits - 1) as nat) as nat
    }
}

/// Over any calls on a fresh schedule, resets never change the backoff: after
/// `k` waits it is `backoff_after(k)`, that is `min(2^(k+1), 256)` seconds,
/// so it always lies between 2 and 256 seconds. Without resets, the `k`
/// waits move the next retry forward by 2, 4, 8, ... seconds, capped at 256,
/// in all `total_backoff(k)` seconds.
pub proof fn backoff_over_calls(start: int, calls: Seq<BackoffCall>)
    ensures
        schedule_through(start, INITIAL_BACKOFF_SECONDS, calls).1 == backoff_after(waits_in(calls)),
        INITIAL_BACKOFF_SECONDS <= schedule_through(start, INITIAL_BACKOFF_SECONDS, calls).1
            <= BACKOFF_LIMIT_SECONDS,
        (forall|i: int| 0 <= i < calls.len() ==> #[trigger] calls[i] is Wait) ==> schedule_through(
            start,
            INITIAL_BACKOFF_SECONDS,
            calls,
        ).0 == start + total_backoff(waits_in(calls)) * NANOS_PER_SECOND,
    decreases calls.len(),
{
    backoff_is_exponential_up_to_limit(waits_in(calls));
    lemma2_to64();
    if calls.len() > 0 {
        let rest = calls.drop_last();
        backoff_over_calls(start, rest);
        if forall|i: int| 0 <= i < calls.len() ==> #[trigger] calls[i] is Wait {
            assert forall|i: int| 0 <= i < rest.len() implies #[trigger] rest[i] is Wait by {
                assert(calls[i] is Wait);
            }
            assert(calls[calls.len() - 1] is Wait);
        }
    }
    backoff_after_is_bounded(waits_in(calls));
}

proof fn backoff_after_is_bounded(waits: nat)
    ensures
        INITIAL_BACKOFF_SECONDS <= backoff_after(waits) <= BACKOFF_LIMIT_SECONDS,
    decreases waits,
{
    if waits > 0 {
        backoff_after_is_bounded((waits - 1) as nat);
    }
}

} // verus!
