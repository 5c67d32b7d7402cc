use sshdt::devtunnel::network::{NetworkChanges, WaitEvent, WaitStep};
use sshdt::devtunnel::retry::Retry;

const SECOND: u64 = 1000;

/// Waits for `deadline` from the time `now` on, with changes that are reported at their
/// times, and gives whether the attempt was brought forward and when the wait ended.
fn wait(n: &mut NetworkChanges, mut now: u64, deadline: u64, changes: &[u64]) -> (bool, u64) {
    let mut left = changes;
    loop {
        let event = match left.first() {
            Some(at) if *at <= now => {
                left = &left[1..];
                WaitEvent::Changed(*at)
            }
            _ => WaitEvent::Tick,
        };
        match n.wait_until(deadline, now, event) {
            WaitStep::Deadline => return (false, now),
            WaitStep::Early => return (true, now),
            WaitStep::Sleep(until) => match left.first() {
                Some(at) if *at <= now => {}
                Some(at) if *at < until => now = *at,
                _ => now = until,
            },
        }
    }
}

#[test]
fn fresh_changes_debounce_without_extending_the_retry_deadline() {
    let mut n = NetworkChanges::new(0, true);
    n.begin_wait();
    assert_eq!(
        wait(&mut n, 0, 60 * SECOND, &[0, SECOND]),
        (true, 3 * SECOND)
    );
}

#[test]
fn changes_during_failed_startup_are_kept_for_the_retry_wait() {
    let mut n = NetworkChanges::new(0, true);
    n.begin_wait();
    n.note(WaitEvent::Changed(10 * SECOND));
    assert_eq!(
        wait(&mut n, 20 * SECOND, 60 * SECOND, &[]),
        (true, 20 * SECOND)
    );
}

#[test]
fn stale_changes_and_closed_sources_keep_the_retry_deadline() {
    let mut n = NetworkChanges::new(0, true);
    n.note(WaitEvent::Changed(0));
    n.begin_wait();
    assert_eq!(wait(&mut n, 0, 60 * SECOND, &[]), (false, 60 * SECOND));
    n.note(WaitEvent::Closed);
    assert_eq!(
        wait(&mut n, 60 * SECOND, 120 * SECOND, &[70 * SECOND]),
        (false, 120 * SECOND)
    );
}

#[test]
fn event_bursts_cannot_postpone_the_retry_deadline() {
    let mut n = NetworkChanges::new(0, true);
    n.begin_wait();
    assert_eq!(wait(&mut n, 0, SECOND, &[0]), (false, SECOND));
}

#[test]
fn cancellation_keeps_debounce_and_cooldown_state() {
    let mut n = NetworkChanges::new(0, true);
    n.begin_wait();
    assert_eq!(
        n.wait_until(60 * SECOND, 0, WaitEvent::Changed(0)),
        WaitStep::Sleep(2 * SECOND)
    );
    assert_eq!(wait(&mut n, SECOND, 60 * SECOND, &[]), (true, 2 * SECOND));
    n.begin_wait();
    assert_eq!(
        wait(&mut n, 2 * SECOND, 60 * SECOND, &[2 * SECOND]),
        (true, 32 * SECOND)
    );
}

#[test]
fn beginning_another_wait_discards_a_cancelled_pending_change() {
    let mut n = NetworkChanges::new(0, true);
    n.begin_wait();
    let _ = n.wait_until(60 * SECOND, 0, WaitEvent::Changed(0));
    n.begin_wait();
    assert_eq!(wait(&mut n, 0, 60 * SECOND, &[]), (false, 60 * SECOND));
}

#[test]
fn unsupported_platform_uses_only_the_timer() {
    let mut n = NetworkChanges::new(0, false);
    assert_eq!(
        wait(&mut n, 0, 60 * SECOND, &[SECOND]),
        (false, 60 * SECOND)
    );
}

#[test]
fn repeated_failures_back_off_and_brief_readiness_does_not_reset() {
    let mut retry = Retry::default();
    let mut now = 0;
    for seconds in [30, 60, 120, 240, 300, 300] {
        retry.ready(now);
        now += SECOND;
        assert_eq!(retry.failed(now), seconds * SECOND);
    }
}

#[test]
fn only_continuous_stable_readiness_resets_backoff() {
    let mut retry = Retry::default();
    assert_eq!(retry.failed(0), 30 * SECOND);
    let mut now = 120 * SECOND;
    assert_eq!(retry.failed(now), 60 * SECOND);
    retry.ready(now);
    now += 299 * SECOND;
    assert_eq!(retry.failed(now), 120 * SECOND);
    retry.ready(now);
    now += 300 * SECOND;
    retry.ready(now);
    assert_eq!(retry.failed(now), 30 * SECOND);
    assert_eq!(retry.failed(now), 60 * SECOND);
}
