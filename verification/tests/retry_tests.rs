use ajour_core::retry::AttemptOutcome;
use ajour_core::retry::RetryAction;
use ajour_core::retry::RetryState;

#[test]
fn lock_failures_exhaust_the_schedule() {
    // An operation that always fails with a lock-class error is retried
    // with growing Fibonacci delays and gives up only once the schedule is
    // spent: after 22 attempts in all and 28656 time units of backoff.
    let mut state = RetryState::new();
    let mut attempts: u64 = 0;
    let mut slept: u64 = 0;
    let mut last_delay: u64 = 0;
    loop {
        attempts += 1;
        match state.step(AttemptOutcome::LockFailure) {
            RetryAction::Backoff(delay) => {
                // The backoff never shrinks.
                assert!(delay >= last_delay);
                last_delay = delay;
                slept += delay;
            }
            RetryAction::GiveUp => break,
            RetryAction::Finished => unreachable!(),
        }
    }
    assert_eq!(attempts, 22);
    assert_eq!(slept, 28656);
    assert_eq!(state.attempts, 22);
    assert_eq!(state.backoff_prescribed, 28656);
    // The failure comes only after several thousand time units of backoff.
    assert!(slept > 20_000);
}

#[test]
fn non_lock_failure_fails_at_once() {
    let mut state = RetryState::new();
    assert_eq!(state.step(AttemptOutcome::OtherFailure), RetryAction::GiveUp);
    assert_eq!(state.attempts, 1);
    assert_eq!(state.backoff_prescribed, 0);
}

#[test]
fn success_finishes() {
    let mut state = RetryState::new();
    assert_eq!(state.step(AttemptOutcome::LockFailure), RetryAction::Backoff(1));
    assert_eq!(state.step(AttemptOutcome::LockFailure), RetryAction::Backoff(1));
    assert_eq!(state.step(AttemptOutcome::LockFailure), RetryAction::Backoff(2));
    assert_eq!(state.step(AttemptOutcome::Succeeded), RetryAction::Finished);
    assert_eq!(state.attempts, 4);
    assert_eq!(state.backoff_prescribed, 4);
}
