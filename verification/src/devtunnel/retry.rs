//! The delays between attempts. Times are in milliseconds.

use vstd::prelude::*;

verus! {

/// The delay after the first failure.
pub const FIRST_DELAY: u64 = 30_000;

/// The longest delay.
pub const LONGEST_DELAY: u64 = 300_000;

/// How long something must work before the next failure counts as the first.
pub const STABLE_TIME: u64 = 300_000;

/// The state of repeated attempts.
#[derive(Clone, Copy, Debug, PartialEq, Eq, Structural)]
pub struct Retry {
    /// The delay after the next failure.
    pub delay: u64,
    /// Since when the thing works.
    pub ready_since: Option<u64>,
}

/// The delay after failure number `n`, counted from 0: it doubles from the first delay
/// up to the longest.
pub open spec fn schedule(n: nat) -> int
    decreases n,
{
    if n == 0 {
        FIRST_DELAY as int
    } else if 2 * schedule((n - 1) as nat) > LONGEST_DELAY {
        LONGEST_DELAY as int
    } else {
        2 * schedule((n - 1) as nat)
    }
}

/// Whether readiness since `since` was long enough at the time `now`.
pub open spec fn stable(since: Option<u64>, now: u64) -> bool {
    since is Some && now - since->0 >= STABLE_TIME
}

/// The delay that follows a delay of `delay`.
pub open spec fn next_delay(delay: u64) -> u64 {
    if 2 * delay > LONGEST_DELAY {
        LONGEST_DELAY
    } else {
        (2 * delay) as u64
    }
}

/// The state after something works at the time `now`.
pub open spec fn after_ready(r: Retry, now: u64) -> Retry {
    Retry {
        ready_since: match r.ready_since {
            Some(t) => Some(t),
            None => Some(now),
        },
        ..r
    }
}

/// The delay that a failure at the time `now` asks for.
pub open spec fn delay_at(r: Retry, now: u64) -> u64 {
    if stable(r.ready_since, now) {
        FIRST_DELAY
    } else {
        r.delay
    }
}

/// The state after a failure at the time `now`.
pub open spec fn after_failed(r: Retry, now: u64) -> Retry {
    Retry { delay: next_delay(delay_at(r, now)), ready_since: None }
}

/// The state before the first attempt.
pub open spec fn fresh() -> Retry {
    Retry { delay: FIRST_DELAY, ready_since: None }
}

impl Default for Retry {
    fn default() -> (r: Self)
        ensures
            r == fresh(),
    {
        Retry { delay: FIRST_DELAY, ready_since: None }
    }
}

impl Retry {
    /// Whether the delay is one of the schedule.
    pub open spec fn wf(self) -> bool {
        exists|n: nat| self.delay == schedule(n)
    }

    /// Notes that the thing works at the time `now`.
    pub fn ready(&mut self, now: u64)
        ensures
            *final(self) == after_ready(*old(self), now),
    {
        if self.ready_since.is_none() {
            self.ready_since = Some(now);
        }
    }

    /// Notes a failure at the time `now`, and gives the delay before the next attempt.
    pub fn failed(&mut self, now: u64) -> (r: u64)
        ensures
            r == delay_at(*old(self), now),
            *final(self) == after_failed(*old(self), now),
    {
        let stable = match self.ready_since {
            Some(since) => now >= since && now - since >= STABLE_TIME,
            None => false,
        };
        if stable {
            self.delay = FIRST_DELAY;
        }
        self.ready_since = None;
        let delay: u64 = self.delay;
        self.delay = if delay > LONGEST_DELAY / 2 {
            LONGEST_DELAY
        } else {
            delay * 2
        };
        delay
    }
}

/// What happens to something that is attempted again and again.
pub enum Attempt {
    Ready(u64),
    Failed(u64),
}

/// The state after `events`.
pub open spec fn after_all(r: Retry, events: Seq<Attempt>) -> Retry
    decreases events.len(),
{
    if events.len() == 0 {
        r
    } else {
        let before = after_all(r, events.drop_last());
        match events.last() {
            Attempt::Ready(now) => after_ready(before, now),
            Attempt::Failed(now) => after_failed(before, now),
        }
    }
}

/// The number of failures among `events` since the last one after a stable time.
pub open spec fn failures(r: Retry, events: Seq<Attempt>) -> nat
    decreases events.len(),
{
    if events.len() == 0 {
        0
    } else {
        let before = failures(r, events.drop_last());
        match events.last() {
            Attempt::Ready(_) => before,
            Attempt::Failed(now) => if stable(
                after_all(r, events.drop_last()).ready_since,
                now,
            ) {
                1
            } else {
                before + 1
            },
        }
    }
}

/// The delays are 30 seconds, 1, 2 and 4 minutes, and then always 5 minutes.
pub proof fn schedule_values()
    ensures
        schedule(0) == 30_000,
        schedule(1) == 60_000,
        schedule(2) == 120_000,
        schedule(3) == 240_000,
        forall|n: nat| n >= 4 ==> schedule(n) == 300_000,
{
    reveal_with_fuel(schedule, 6);
    assert forall|n: nat| n >= 4 implies schedule(n) == 300_000 by {
        schedule_end(n);
    }
}

proof fn schedule_end(n: nat)
    requires
        n >= 4,
    ensures
        schedule(n) == 300_000,
    decreases n,
{
    reveal_with_fuel(schedule, 6);
    if n > 4 {
        schedule_end((n - 1) as nat);
    }
}

proof fn schedule_bounds(n: nat)
    ensures
        FIRST_DELAY <= schedule(n) <= LONGEST_DELAY,
    decreases n,
{
    if n > 0 {
        schedule_bounds((n - 1) as nat);
    }
}

/// Whatever happens, the delay after the next failure is that of the schedule for the
/// number of failures since the last stable time: readiness that does not last changes
/// nothing, and readiness that does starts the schedule again.
pub proof fn delays_follow_the_schedule(events: Seq<Attempt>)
    ensures
        after_all(fresh(), events).delay == schedule(failures(fresh(), events)),
    decreases events.len(),
{
    if events.len() > 0 {
        delays_follow_the_schedule(events.drop_last());
        let n = failures(fresh(), events.drop_last());
        schedule_bounds(n);
        reveal_with_fuel(schedule, 2);
    }
}

/// Five minutes of readiness make the next failure count as the first, and less does not. Since
/// when something works is noted once.
pub proof fn what_readiness_changes(r: Retry, since: u64, now: u64)
    requires
        r.ready_since == Some(since),
    ensures
        now - since >= 300000 ==> delay_at(r, now) == 30000,
        now - since < 300000 ==> delay_at(r, now) == r.delay,
        after_ready(r, now) == r,
        after_ready(Retry { delay: r.delay, ready_since: None }, now) == (Retry {
            delay: r.delay,
            ready_since: Some(now),
        }),
{
}

/// Whatever happened, the delay that a failure asks for is that of the schedule: 30 seconds after
/// the first failure and after one that follows a stable time, twice as long after each further
/// one, and five minutes at most.
pub proof fn failures_ask_for_the_schedule(events: Seq<Attempt>, now: u64)
    ensures
        delay_at(after_all(fresh(), events), now) == (if stable(
            after_all(fresh(), events).ready_since,
            now,
        ) {
            30000
        } else {
            schedule(failures(fresh(), events))
        }),
        after_failed(after_all(fresh(), events), now).delay == (if 2 * delay_at(
            after_all(fresh(), events),
            now,
        ) > 300000 {
            300000
        } else {
            2 * delay_at(after_all(fresh(), events), now)
        }),
        after_failed(after_all(fresh(), events), now).ready_since is None,
{
    delays_follow_the_schedule(events);
}

} // verus!
