//! Waiting for the next attempt, which a change of the network may bring forward. Times
//! are in milliseconds.

use vstd::prelude::*;

verus! {

/// How long the network must be without another change.
pub const SETTLE_TIME: u64 = 2_000;

/// The least time between two attempts that a change brought forward.
pub const EARLY_RETRY_INTERVAL: u64 = 30_000;

/// What is known of the network.
#[derive(Clone, Copy, Debug, PartialEq, Eq, Structural)]
pub struct NetworkChanges {
    /// Whether changes are reported.
    pub watching: bool,
    /// The last change that has not brought an attempt forward.
    pub pending: Option<u64>,
    /// When a change may bring an attempt forward again.
    pub next_allowed: u64,
}

/// What can happen during a wait.
#[derive(Clone, Copy, Debug, PartialEq, Eq, Structural)]
pub enum WaitEvent {
    /// Nothing but the passing of time.
    Tick,
    /// The network changed at this time.
    Changed(u64),
    /// No more changes will be reported.
    Closed,
}

/// What a wait comes to.
#[derive(Clone, Copy, Debug, PartialEq, Eq, Structural)]
pub enum WaitStep {
    /// The deadline is there.
    Deadline,
    /// A change brings the attempt forward.
    Early,
    /// Go on waiting, up to this time.
    Sleep(u64),
}

/// The time `d` after `t`, as far as times can be counted.
pub open spec fn later(t: u64, d: u64) -> u64 {
    if t + d > u64::MAX {
        u64::MAX
    } else {
        (t + d) as u64
    }
}

/// When the pending change brings the attempt forward: once the network has settled,
/// and not too soon after the last attempt that was brought forward.
pub open spec fn early_at(n: NetworkChanges) -> Option<u64> {
    match n.pending {
        None => None,
        Some(at) => if later(at, SETTLE_TIME) > n.next_allowed {
            Some(later(at, SETTLE_TIME))
        } else {
            Some(n.next_allowed)
        },
    }
}

/// How long to sleep: up to the deadline, or up to an earlier attempt.
pub open spec fn wake_at(n: NetworkChanges, deadline: u64) -> u64 {
    match early_at(n) {
        Some(t) => if t < deadline {
            t
        } else {
            deadline
        },
        None => deadline,
    }
}

/// What is known after an event.
pub open spec fn noted(n: NetworkChanges, event: WaitEvent) -> NetworkChanges {
    match event {
        WaitEvent::Tick => n,
        WaitEvent::Changed(at) => if n.watching {
            NetworkChanges { pending: Some(at), ..n }
        } else {
            n
        },
        WaitEvent::Closed => NetworkChanges { watching: false, ..n },
    }
}

/// What a wait comes to at the time `now`. The deadline goes before an event, and an
/// event before an attempt that is brought forward.
pub open spec fn wait_step(
    n: NetworkChanges,
    deadline: u64,
    now: u64,
    event: WaitEvent,
) -> (NetworkChanges, WaitStep) {
    let m = noted(n, event);
    if now >= deadline {
        (n, WaitStep::Deadline)
    } else if event is Tick && early_at(n) is Some && early_at(n)->0 <= now {
        (
            NetworkChanges { pending: None, next_allowed: later(now, EARLY_RETRY_INTERVAL), ..n },
            WaitStep::Early,
        )
    } else {
        (m, WaitStep::Sleep(wake_at(m, deadline)))
    }
}

/// The time `d` after `t`, as far as times can be counted.
pub fn later_by(t: u64, d: u64) -> (r: u64)
    ensures
        r == later(t, d),
{
    t.saturating_add(d)
}

impl NetworkChanges {
    /// Nothing is known at the time `now`. `watching` says whether changes will be
    /// reported.
    pub fn new(now: u64, watching: bool) -> (r: Self)
        ensures
            r == (NetworkChanges { watching, pending: None, next_allowed: now }),
    {
        NetworkChanges { watching, pending: None, next_allowed: now }
    }

    /// Begins another wait: changes that were seen before it do not count.
    pub fn begin_wait(&mut self)
        ensures
            *final(self) == (NetworkChanges { pending: None, ..*old(self) }),
    {
        self.pending = None;
    }

    /// How long to sleep: up to the deadline, or up to an earlier attempt.
    pub fn wake_time(&self, deadline: u64) -> (r: u64)
        ensures
            r == wake_at(*self, deadline),
    {
        match self.pending {
            None => deadline,
            Some(at) => {
                let settled: u64 = later_by(at, SETTLE_TIME);
                let early: u64 = if settled > self.next_allowed {
                    settled
                } else {
                    self.next_allowed
                };
                if early < deadline {
                    early
                } else {
                    deadline
                }
            },
        }
    }

    /// Takes an event outside a wait.
    pub fn note(&mut self, event: WaitEvent)
        ensures
            *final(self) == noted(*old(self), event),
    {
        match event {
            WaitEvent::Tick => {},
            WaitEvent::Changed(at) => {
                if self.watching {
                    self.pending = Some(at);
                }
            },
            WaitEvent::Closed => {
                self.watching = false;
            },
        }
    }

    /// Takes an event at the time `now` and says what the wait for `deadline` comes to.
    pub fn wait_until(&mut self, deadline: u64, now: u64, event: WaitEvent) -> (r: WaitStep)
        ensures
            (*final(self), r) == wait_step(*old(self), deadline, now, event),
    {
        if now >= deadline {
            return WaitStep::Deadline;
        }
        self.note(event);
        match self.pending {
            None => WaitStep::Sleep(deadline),
            Some(at) => {
                let settled: u64 = later_by(at, SETTLE_TIME);
                let early: u64 = if settled > self.next_allowed {
                    settled
                } else {
                    self.next_allowed
                };
                if matches!(event, WaitEvent::Tick) && early <= now {
                    self.pending = None;
                    self.next_allowed = later_by(now, EARLY_RETRY_INTERVAL);
                    WaitStep::Early
                } else {
                    WaitStep::Sleep(self.wake_time(deadline))
                }
            },
        }
    }
}

/// A moment of one wait after another.
pub enum Moment {
    /// Another wait begins.
    Begin,
    /// Something happens at the time `now` in the wait for `deadline`.
    Wait { now: u64, deadline: u64, event: WaitEvent },
}

/// What is known after `moments`.
pub open spec fn after_moments(n: NetworkChanges, moments: Seq<Moment>) -> NetworkChanges
    decreases moments.len(),
{
    if moments.len() == 0 {
        n
    } else {
        let before = after_moments(n, moments.drop_last());
        match moments.last() {
            Moment::Begin => NetworkChanges { pending: None, ..before },
            Moment::Wait { now, deadline, event } => wait_step(before, deadline, now, event).0,
        }
    }
}

/// Whether an attempt is brought forward at the moment with index `i`, at the time
/// `at`.
pub open spec fn early(n: NetworkChanges, moments: Seq<Moment>, i: int, at: u64) -> bool {
    match moments[i] {
        Moment::Begin => false,
        Moment::Wait { now, deadline, event } => now == at && wait_step(
            after_moments(n, moments.take(i)),
            deadline,
            now,
            event,
        ).1 is Early,
    }
}

/// A change never makes a wait longer: the wait ends at its deadline, and no sleep goes
/// beyond it.
pub proof fn deadline_holds(n: NetworkChanges, deadline: u64, now: u64, event: WaitEvent)
    ensures
        now >= deadline ==> wait_step(n, deadline, now, event).1 is Deadline,
        now < deadline ==> !(wait_step(n, deadline, now, event).1 is Deadline),
        wait_step(n, deadline, now, event).1 matches WaitStep::Sleep(t) ==> t <= deadline,
{
}

/// An attempt is brought forward only by a change, and only once the network has been
/// without another change for the time to settle.
pub proof fn early_after_settling(n: NetworkChanges, deadline: u64, now: u64, event: WaitEvent)
    requires
        wait_step(n, deadline, now, event).1 is Early,
    ensures
        n.pending is Some,
        now >= later(n.pending->0, SETTLE_TIME),
        now < deadline,
{
}

/// Without a source of changes, only the deadline ends a wait.
pub proof fn unwatched_waits_for_the_deadline(
    n: NetworkChanges,
    deadline: u64,
    now: u64,
    event: WaitEvent,
)
    requires
        !n.watching,
        n.pending is None,
        now < deadline,
    ensures
        wait_step(n, deadline, now, event).1 == WaitStep::Sleep(deadline),
        wait_step(n, deadline, now, event).0 == n,
{
}

/// When a change may bring an attempt forward is never put earlier.
proof fn allowed_grows(n: NetworkChanges, moments: Seq<Moment>, i: int)
    requires
        0 <= i <= moments.len(),
    ensures
        after_moments(n, moments.take(i)).next_allowed <= after_moments(n, moments).next_allowed,
    decreases moments.len(),
{
    if i < moments.len() {
        let front = moments.drop_last();
        allowed_grows(n, front, i);
        assert(front.take(i) =~= moments.take(i));
    } else {
        assert(moments.take(i) =~= moments);
    }
}

/// Over any number of waits, two attempts that changes brought forward are at least
/// the interval apart.
pub proof fn early_attempts_are_apart(
    n: NetworkChanges,
    moments: Seq<Moment>,
    i: int,
    j: int,
    first: u64,
    second: u64,
)
    requires
        0 <= i < j < moments.len(),
        early(n, moments, i, first),
        early(n, moments, j, second),
        first + EARLY_RETRY_INTERVAL <= u64::MAX,
    ensures
        second >= first + EARLY_RETRY_INTERVAL,
{
    let upto = moments.take(j);
    allowed_grows(n, upto, i + 1);
    assert(upto.take(i + 1) =~= moments.take(i + 1));
    assert(moments.take(i + 1).drop_last() =~= moments.take(i));
    assert(moments.take(i + 1).last() == moments[i]);
}

/// A change that the network has settled after for two seconds brings the attempt forward, where
/// 30 seconds have passed since the last one that was. Until then the wait sleeps for no longer.
pub proof fn settled_changes_bring_attempts_forward(
    n: NetworkChanges,
    deadline: u64,
    now: u64,
    at: u64,
)
    requires
        n.pending == Some(at),
        now < deadline,
        at + 2000 <= u64::MAX,
    ensures
        now >= at + 2000 && now >= n.next_allowed ==> wait_step(
            n,
            deadline,
            now,
            WaitEvent::Tick,
        ).1 is Early,
        now >= at + 2000 && now >= n.next_allowed && now + 30000 <= u64::MAX ==> wait_step(
            n,
            deadline,
            now,
            WaitEvent::Tick,
        ).0 == (NetworkChanges {
            watching: n.watching,
            pending: None,
            next_allowed: (now + 30000) as u64,
        }),
        now < at + 2000 || now < n.next_allowed ==> (wait_step(
            n,
            deadline,
            now,
            WaitEvent::Tick,
        ).1 matches WaitStep::Sleep(t) && (t == deadline || t == at + 2000 || t == n.next_allowed)
            && now < t && (t < deadline ==> t >= at + 2000 && t >= n.next_allowed) && (deadline >= at
            + 2000 && deadline >= n.next_allowed ==> t <= at + 2000 || t <= n.next_allowed)),
        SETTLE_TIME == 2000,
        EARLY_RETRY_INTERVAL == 30000,
{
}

/// The last change counts, where changes are reported, and nothing else is changed by one.
pub proof fn the_last_change_counts(n: NetworkChanges, at: u64)
    ensures
        n.watching ==> noted(n, WaitEvent::Changed(at)) == (NetworkChanges {
            watching: true,
            pending: Some(at),
            next_allowed: n.next_allowed,
        }),
        !n.watching ==> noted(n, WaitEvent::Changed(at)) == n,
        noted(n, WaitEvent::Tick) == n,
        noted(n, WaitEvent::Closed) == (NetworkChanges {
            watching: false,
            pending: n.pending,
            next_allowed: n.next_allowed,
        }),
{
}

/// What happens during a wait is noted, unless the deadline is there or an attempt is brought
/// forward.
pub proof fn waits_note_what_happens(n: NetworkChanges, deadline: u64, now: u64, event: WaitEvent)
    ensures
        now < deadline && !(event is Tick) ==> wait_step(n, deadline, now, event).0 == noted(
            n,
            event,
        ) && wait_step(n, deadline, now, event).1 is Sleep,
        now >= deadline ==> wait_step(n, deadline, now, event).0 == n,
        n.pending is None && now < deadline ==> wait_step(n, deadline, now, WaitEvent::Tick) == (
            n,
            WaitStep::Sleep(deadline),
        ),
{
}

/// Times are counted as far as they can be.
pub proof fn times_are_counted(t: u64, d: u64)
    ensures
        t + d <= u64::MAX ==> later(t, d) == t + d,
        t + d > u64::MAX ==> later(t, d) == u64::MAX,
{
}

} // verus!
