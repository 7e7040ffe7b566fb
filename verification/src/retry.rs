//! Retry schedule for filesystem operations that can fail transiently when
//! another process (a virus scanner, a backup tool) holds a lock on the
//! target.  The schedule is pure data: the caller performs an attempt,
//! reports its outcome, and is told whether to stop, give up, or back off
//! and try again after a delay.  Delays follow a Fibonacci progression
//! starting at one time unit, for twenty-one retries, 28656 time units of
//! backoff in all.

use vstd::prelude::*;

verus! {

/// How many retries the schedule allows after the first attempt.
pub const MAX_RETRIES: u64 = 21;

/// The delay before retry number `k` (counted from zero): the `k`-th
/// number of the Fibonacci progression 1, 1, 2, 3, 5, ...
pub open spec fn spec_fibonacci_delay(k: nat) -> nat
    decreases k,
{
    if k == 0 {
        1
    } else if k == 1 {
        1
    } else {
        spec_fibonacci_delay((k - 1) as nat) + spec_fibonacci_delay((k - 2) as nat)
    }
}

/// The total backoff once `n` retries have been waited for.
pub open spec fn spec_total_backoff(n: nat) -> nat
    decreases n,
{
    if n == 0 {
        0
    } else {
        spec_total_backoff((n - 1) as nat) + spec_fibonacci_delay((n - 1) as nat)
    }
}

proof fn lemma_fibonacci_monotone(a: nat, b: nat)
    requires
        a <= b,
    ensures
        spec_fibonacci_delay(a) <= spec_fibonacci_delay(b),
    decreases b,
{
    if a < b {
        lemma_fibonacci_monotone(a, (b - 1) as nat);
        if b >= 2 {
            assert(spec_fibonacci_delay(b) == spec_fibonacci_delay((b - 1) as nat)
                + spec_fibonacci_delay((b - 2) as nat));
        }
    }
}

proof fn lemma_total_backoff_monotone(a: nat, b: nat)
    requires
        a <= b,
    ensures
        spec_total_backoff(a) <= spec_total_backoff(b),
    decreases b,
{
    if a < b {
        lemma_total_backoff_monotone(a, (b - 1) as nat);
    }
}

/// The concrete sizes of the schedule: the largest single delay and the
/// total backoff over the whole schedule.
pub proof fn lemma_schedule_totals()
    ensures
        spec_fibonacci_delay(20) == 10946,
        spec_total_backoff(21) == 28656,
        forall|k: nat| k < MAX_RETRIES ==> #[trigger] spec_fibonacci_delay(k) <= 10946,
        forall|n: nat| n <= MAX_RETRIES ==> #[trigger] spec_total_backoff(n) <= 28656,
{
    reveal_with_fuel(spec_fibonacci_delay, 2);
    reveal_with_fuel(spec_total_backoff, 2);
    assert(spec_fibonacci_delay(0) == 1);
    assert(spec_fibonacci_delay(1) == 1);
    assert(spec_fibonacci_delay(2) == 2);
    assert(spec_fibonacci_delay(3) == 3);
    assert(spec_fibonacci_delay(4) == 5);
    assert(spec_fibonacci_delay(5) == 8);
    assert(spec_fibonacci_delay(6) == 13);
    assert(spec_fibonacci_delay(7) == 21);
    assert(spec_fibonacci_delay(8) == 34);
    assert(spec_fibonacci_delay(9) == 55);
    assert(spec_fibonacci_delay(10) == 89);
    assert(spec_fibonacci_delay(11) == 144);
    assert(spec_fibonacci_delay(12) == 233);
    assert(spec_fibonacci_delay(13) == 377);
    assert(spec_fibonacci_delay(14) == 610);
    assert(spec_fibonacci_delay(15) == 987);
    assert(spec_fibonacci_delay(16) == 1597);
    assert(spec_fibonacci_delay(17) == 2584);
    assert(spec_fibonacci_delay(18) == 4181);
    assert(spec_fibonacci_delay(19) == 6765);
    assert(spec_fibonacci_delay(20) == 10946);
    assert(spec_total_backoff(0) == 0);
    assert(spec_total_backoff(1) == 1);
    assert(spec_total_backoff(2) == 2);
    assert(spec_total_backoff(3) == 4);
    assert(spec_total_backoff(4) == 7);
    assert(spec_total_backoff(5) == 12);
    assert(spec_total_backoff(6) == 20);
    assert(spec_total_backoff(7) == 33);
    assert(spec_total_backoff(8) == 54);
    assert(spec_total_backoff(9) == 88);
    assert(spec_total_backoff(10) == 143);
    assert(spec_total_backoff(11) == 232);
    assert(spec_total_backoff(12) == 376);
    assert(spec_total_backoff(13) == 609);
    assert(spec_total_backoff(14) == 986);
    assert(spec_total_backoff(15) == 1596);
    assert(spec_total_backoff(16) == 2583);
    assert(spec_total_backoff(17) == 4180);
    assert(spec_total_backoff(18) == 6764);
    assert(spec_total_backoff(19) == 10945);
    assert(spec_total_backoff(20) == 17710);
    assert(spec_total_backoff(21) == 28656);
    assert forall|k: nat| k < MAX_RETRIES implies #[trigger] spec_fibonacci_delay(k) <= 10946 by {
        lemma_fibonacci_monotone(k, 20);
    }
    assert forall|n: nat| n <= MAX_RETRIES implies #[trigger] spec_total_backoff(n) <= 28656 by {
        lemma_total_backoff_monotone(n, 21);
    }
}

/// What one attempt at the filesystem operation came to.
#[derive(Clone, Copy, Debug, PartialEq, Eq, Structural)]
pub enum AttemptOutcome {
    /// The operation succeeded.
    Succeeded,
    /// The operation failed because the target was locked by another
    /// process (the permission-denied class of failure).
    LockFailure,
    /// The operation failed for any other reason (not found, invalid path).
    OtherFailure,
}

/// What the caller must do next.
#[derive(Clone, Copy, Debug, PartialEq, Eq, Structural)]
pub enum RetryAction {
    /// The operation succeeded; stop.
    Finished,
    /// The failure is final; surface it.
    GiveUp,
    /// Wait this many time units, then attempt the operation again.
    Backoff(u64),
}

/// The progress of one retried operation.
#[derive(Clone, Copy, Debug, PartialEq, Eq, Structural)]
pub struct RetryState {
    /// Attempts made so far (each reported through `step`).
    pub attempts: u64,
    /// Retries granted so far: `Backoff` answers handed out.
    pub retries_granted: u64,
    /// Total backoff prescribed so far, in time units.
    pub backoff_prescribed: u64,
}

/// A state the schedule can actually reach.
pub open spec fn state_wf(s: RetryState) -> bool {
    &&& s.retries_granted <= MAX_RETRIES
    &&& s.retries_granted <= s.attempts
    &&& s.backoff_prescribed == spec_total_backoff(s.retries_granted as nat)
}

/// The state after `outcome` is reported to `state`, paired with the action
/// that goes with it.
pub open spec fn spec_step(state: RetryState, outcome: AttemptOutcome) -> (RetryState, RetryAction) {
    let counted = RetryState { attempts: (state.attempts + 1) as u64, ..state };
    match outcome {
        AttemptOutcome::Succeeded => (counted, RetryAction::Finished),
        AttemptOutcome::OtherFailure => (counted, RetryAction::GiveUp),
        AttemptOutcome::LockFailure => {
            if state.retries_granted < MAX_RETRIES {
                let delay = spec_fibonacci_delay(state.retries_granted as nat);
                (
                    RetryState {
                        attempts: (state.attempts + 1) as u64,
                        retries_granted: (state.retries_granted + 1) as u64,
                        backoff_prescribed: (state.backoff_prescribed + delay) as u64,
                    },
                    RetryAction::Backoff(delay as u64),
                )
            } else {
                (counted, RetryAction::GiveUp)
            }
        },
    }
}

/// The state after `n` attempts that all came back as lock failures,
/// starting from a fresh schedule.
pub open spec fn spec_locked_run(n: nat) -> RetryState
    decreases n,
{
    if n == 0 {
        RetryState { attempts: 0, retries_granted: 0, backoff_prescribed: 0 }
    } else {
        spec_step(spec_locked_run((n - 1) as nat), AttemptOutcome::LockFailure).0
    }
}

proof fn lemma_locked_run_shape(n: nat)
    requires
        n <= MAX_RETRIES + 1,
    ensures
        spec_locked_run(n).attempts == n,
        spec_locked_run(n).retries_granted == if n <= MAX_RETRIES {
            n
        } else {
            MAX_RETRIES as nat
        },
        state_wf(spec_locked_run(n)),
    decreases n,
{
    lemma_schedule_totals();
    if n > 0 {
        lemma_locked_run_shape((n - 1) as nat);
    }
}

/// An operation that always fails with a lock-class error is granted a
/// backoff on each of its first `MAX_RETRIES` + 1 attempts' reports but the
/// last: the last report is answered `GiveUp`, after 22 attempts in all and
/// only once 28656 time units of backoff stand prescribed.  A failure of any
/// other class is answered `GiveUp` at the first report, with no backoff.
pub proof fn lemma_retry_bound()
    ensures
        forall|n: nat|
            n < MAX_RETRIES ==> spec_step(
                #[trigger] spec_locked_run(n),
                AttemptOutcome::LockFailure,
            ).1 is Backoff,
        spec_step(spec_locked_run(MAX_RETRIES as nat), AttemptOutcome::LockFailure).1
            == RetryAction::GiveUp,
        spec_locked_run((MAX_RETRIES + 1) as nat).attempts == MAX_RETRIES + 1,
        spec_locked_run((MAX_RETRIES + 1) as nat).backoff_prescribed == 28656,
        spec_step(spec_locked_run(0), AttemptOutcome::OtherFailure).1 == RetryAction::GiveUp,
        spec_step(spec_locked_run(0), AttemptOutcome::OtherFailure).0.backoff_prescribed == 0,
        spec_step(spec_locked_run(0), AttemptOutcome::OtherFailure).0.attempts == 1,
{
    lemma_schedule_totals();
    assert forall|n: nat|
        n < MAX_RETRIES implies spec_step(
        #[trigger] spec_locked_run(n),
        AttemptOutcome::LockFailure,
    ).1 is Backoff by {
        lemma_locked_run_shape(n);
    }
    lemma_locked_run_shape(MAX_RETRIES as nat);
    lemma_locked_run_shape((MAX_RETRIES + 1) as nat);
}

impl RetryState {
    /// A fresh schedule: no attempt made yet.
    pub fn new() -> (r: RetryState)
        ensures
            r == (RetryState { attempts: 0, retries_granted: 0, backoff_prescribed: 0 }),
            state_wf(r),
    {
        RetryState { attempts: 0, retries_granted: 0, backoff_prescribed: 0 }
    }

    /// Reports the outcome of one attempt and answers what to do next:
    /// stop on success, give up at once on a failure that is not a lock,
    /// and on a lock failure back off by the next Fibonacci delay — until
    /// the schedule of `MAX_RETRIES` retries is exhausted, when the lock
    /// failure too is surfaced.
    pub fn step(&mut self, outcome: AttemptOutcome) -> (action: RetryAction)
        requires
            state_wf(*old(self)),
            old(self).attempts < 0xFFFF_FFFF_FFFF_FFFF,
        ensures
            state_wf(*final(self)),
            (*final(self), action) == spec_step(*old(self), outcome),
    {
        proof {
            lemma_schedule_totals();
        }
        let counted_attempts = self.attempts + 1;
        match outcome {
            AttemptOutcome::Succeeded => {
                self.attempts = counted_attempts;
                RetryAction::Finished
            },
            AttemptOutcome::OtherFailure => {
                self.attempts = counted_attempts;
                RetryAction::GiveUp
            },
            AttemptOutcome::LockFailure => {
                if self.retries_granted < MAX_RETRIES {
                    let delay = fibonacci_delay(self.retries_granted);
                    self.attempts = counted_attempts;
                    self.retries_granted = self.retries_granted + 1;
                    self.backoff_prescribed = self.backoff_prescribed + delay;
                    RetryAction::Backoff(delay)
                } else {
                    self.attempts = counted_attempts;
                    RetryAction::GiveUp
                }
            },
        }
    }
}

/// The delay before retry number `k`, computed iteratively.
pub fn fibonacci_delay(k: u64) -> (r: u64)
    requires
        k < MAX_RETRIES,
    ensures
        r == spec_fibonacci_delay(k as nat),
        r <= 10946,
{
    proof {
        lemma_schedule_totals();
    }
    if k == 0 {
        1
    } else {
        let mut prev: u64 = 1;
        let mut cur: u64 = 1;
        let mut i: u64 = 1;
        while i < k
            invariant
                1 <= i <= k < MAX_RETRIES,
                prev == spec_fibonacci_delay((i - 1) as nat),
                cur == spec_fibonacci_delay(i as nat),
            decreases k - i,
        {
            proof {
                lemma_schedule_totals();
                lemma_fibonacci_monotone((i - 1) as nat, 20);
                lemma_fibonacci_monotone(i as nat, 20);
            }
            let next = prev + cur;
            prev = cur;
            cur = next;
            i = i + 1;
        }
        proof {
            lemma_fibonacci_monotone(k as nat, 20);
        }
        cur
    }
}

} // verus!
