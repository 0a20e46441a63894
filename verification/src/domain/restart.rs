use std::time::Duration;

use vstd::prelude::*;

use crate::clock::Timestamp;
use crate::domain::models::RestartPolicy;
use crate::duration::{duration_new, std_duration};

verus! {

/// Longest wait between restart attempts, in seconds.
pub const MAX_BACKOFF_SECS: u64 = 300;

/// Wait before the first restart, in seconds (before exponential growth).
pub const BASE_DELAY_SECS: u64 = 1;

/// How long a pod must stay healthy before its restart count resets, in
/// seconds.
pub const HEALTHY_RESET_WINDOW_SECS: u64 = 600;

/// Number of restarts that counts as a crash loop.
pub const CRASH_LOOP_THRESHOLD: u32 = 10;

/// Whether `policy` allows a restart after the container exited with
/// `exit_code`.
pub open spec fn spec_should_restart(policy: RestartPolicy, exit_code: i64) -> bool {
    match policy {
        RestartPolicy::Always => true,
        RestartPolicy::OnFailure => exit_code != 0,
        RestartPolicy::Never => false,
    }
}

/// Returns `true` when the given policy permits a restart for the given exit code.
pub fn should_restart(policy: &RestartPolicy, exit_code: i64) -> (r: bool)
    ensures
        r == spec_should_restart(*policy, exit_code),
        *policy == RestartPolicy::Never ==> !r,
        *policy == RestartPolicy::Always ==> r,
        *policy == RestartPolicy::OnFailure ==> (r <==> exit_code != 0),
{
    match policy {
        RestartPolicy::Always => true,
        RestartPolicy::OnFailure => exit_code != 0,
        RestartPolicy::Never => false,
    }
}

/// Under `never` no exit leads to a restart, under `always` every exit
/// does, and under `on_failure` exactly the exits with a non-zero code do.
pub proof fn restart_policy_law(exit_code: i64)
    ensures
        !spec_should_restart(RestartPolicy::Never, exit_code),
        spec_should_restart(RestartPolicy::Always, exit_code),
        spec_should_restart(RestartPolicy::OnFailure, exit_code) <==> exit_code != 0,
        spec_should_restart(RestartPolicy::OnFailure, 0) == false,
{
}

/// After a healthy period has ended, healthy reports reset the restart
/// count only once a whole reset window has passed since the first of
/// them: two healthy reports less than a window apart leave the count and
/// the last restart as they were.
pub proof fn reset_needs_continuous_healthy_window(s: RestartState, t1: Timestamp, t2: Timestamp)
    requires
        s.last_healthy_since is None,
        t1 <= t2,
        t2 - t1 < HEALTHY_RESET_WINDOW_SECS * 1_000_000_000,
    ensures
        s.after_healthy_report(t1).count == s.count,
        s.after_healthy_report(t1).after_healthy_report(t2).count == s.count,
        s.after_healthy_report(t1).after_healthy_report(t2).last_restart == s.last_restart,
        s.after_healthy_report(t1).after_healthy_report(t2).last_healthy_since == Some(t1),
{
}

/// Once a pod has been reported healthy without a break for a whole reset
/// window, the next healthy report resets its restart count and forgets its
/// last restart.
pub proof fn healthy_window_resets_count(s: RestartState, t1: Timestamp, t2: Timestamp)
    requires
        s.last_healthy_since is None,
        t1 <= t2,
        t2 - t1 >= HEALTHY_RESET_WINDOW_SECS * 1_000_000_000,
    ensures
        s.after_healthy_report(t1).after_healthy_report(t2).count == 0,
        s.after_healthy_report(t1).after_healthy_report(t2).last_restart is None,
        s.after_healthy_report(t1).after_healthy_report(t2).last_healthy_since == Some(t1),
{
}

/// Two to the power `n`.
pub open spec fn two_pow(n: nat) -> nat
    decreases n,
{
    if n == 0 {
        1
    } else {
        2 * two_pow((n - 1) as nat)
    }
}

/// The backoff in seconds before restart number `count + 1`:
/// `min(MAX_BACKOFF, BASE_DELAY * 2^count)`.
pub open spec fn backoff_secs(count: nat) -> nat {
    let d = BASE_DELAY_SECS as nat * two_pow(count);
    if d > MAX_BACKOFF_SECS as nat {
        MAX_BACKOFF_SECS as nat
    } else {
        d
    }
}

proof fn lemma_two_pow_monotonic(a: nat, b: nat)
    requires
        a <= b,
    ensures
        two_pow(a) <= two_pow(b),
        two_pow(a) >= 1,
    decreases b,
{
    if b > a {
        lemma_two_pow_monotonic(a, (b - 1) as nat);
    } else if a > 0 {
        lemma_two_pow_monotonic((a - 1) as nat, (a - 1) as nat);
    }
}

/// Computes the backoff delay for a given restart count using capped
/// exponential backoff: `min(MAX_BACKOFF, BASE_DELAY * 2^count)`.
pub fn backoff_delay(restart_count: u32) -> (d: Duration)
    ensures
        d == std_duration(backoff_secs(restart_count as nat) as u64, 0),
{
    let mut secs: u64 = BASE_DELAY_SECS;
    let mut i: u32 = 0;
    while i < restart_count && secs <= MAX_BACKOFF_SECS
        invariant
            i <= restart_count,
            secs == two_pow(i as nat),
        decreases restart_count - i,
    {
        secs = secs * 2;
        i = i + 1;
    }
    proof {
        lemma_two_pow_monotonic(i as nat, restart_count as nat);
    }
    if secs > MAX_BACKOFF_SECS {
        duration_new(MAX_BACKOFF_SECS, 0)
    } else {
        duration_new(secs, 0)
    }
}

/// The backoff never exceeds the maximum, and it never shrinks when the
/// restart count grows.
pub proof fn backoff_is_capped_and_monotonic(a: nat, b: nat)
    requires
        a <= b,
    ensures
        backoff_secs(a) <= MAX_BACKOFF_SECS,
        backoff_secs(a) <= backoff_secs(b),
        backoff_secs(a) >= BASE_DELAY_SECS,
{
    lemma_two_pow_monotonic(a, b);
}

/// Per-pod restart tracking state.
#[derive(Debug, Clone, Copy, PartialEq, Eq, Structural)]
pub struct RestartState {
    pub count: u32,
    pub last_restart: Option<Timestamp>,
    pub last_healthy_since: Option<Timestamp>,
}

impl RestartState {
    pub fn new() -> (s: RestartState)
        ensures
            s.count == 0,
            s.last_restart is None,
            s.last_healthy_since is None,
    {
        RestartState { count: 0, last_restart: None, last_healthy_since: None }
    }

    /// The pod has been healthy for the whole reset window at `now`.
    pub open spec fn spec_should_reset_count(self, now: Timestamp) -> bool {
        match self.last_healthy_since {
            Some(since) => now - since >= HEALTHY_RESET_WINDOW_SECS * 1_000_000_000,
            None => false,
        }
    }

    /// The state after a healthy report at `now`: the healthy period starts
    /// (unless it already runs) and the count resets once the period has
    /// lasted the reset window.
    pub open spec fn after_healthy_report(self, now: Timestamp) -> RestartState {
        let marked = RestartState {
            last_healthy_since: match self.last_healthy_since {
                Some(t) => Some(t),
                None => Some(now),
            },
            ..self
        };
        if marked.spec_should_reset_count(now) {
            RestartState { count: 0, last_restart: None, ..marked }
        } else {
            marked
        }
    }

    /// Returns `true` when the pod has been continuously healthy long enough
    /// to reset its restart counter.
    pub fn should_reset_count(&self, now: Timestamp) -> (r: bool)
        ensures
            r == self.spec_should_reset_count(now),
    {
        match self.last_healthy_since {
            Some(since) => match now.checked_sub(since) {
                Some(elapsed) => elapsed >= (HEALTHY_RESET_WINDOW_SECS as i128) * 1_000_000_000,
                None => now > since,
            },
            None => false,
        }
    }

    /// Resets the restart counter if the pod has been healthy long enough.
    pub fn reset_if_healthy(&mut self, now: Timestamp)
        ensures
            old(self).spec_should_reset_count(now) ==> *final(self) == (RestartState {
                count: 0,
                last_restart: None,
                ..*old(self)
            }),
            !old(self).spec_should_reset_count(now) ==> *final(self) == *old(self),
    {
        if self.should_reset_count(now) {
            self.count = 0;
            self.last_restart = None;
        }
    }

    /// Records that the pod is now healthy; an earlier start of the healthy
    /// period is kept.
    pub fn mark_healthy(&mut self, now: Timestamp)
        ensures
            final(self).count == old(self).count,
            final(self).last_restart == old(self).last_restart,
            final(self).last_healthy_since == (match old(self).last_healthy_since {
                Some(t) => Some(t),
                None => Some(now),
            }),
    {
        if self.last_healthy_since.is_none() {
            self.last_healthy_since = Some(now);
        }
    }

    /// Records that the pod is now unhealthy.
    pub fn mark_unhealthy(&mut self)
        ensures
            *final(self) == (RestartState { last_healthy_since: None, ..*old(self) }),
    {
        self.last_healthy_since = None;
    }

    /// The restart count has reached the crash-loop threshold.
    pub open spec fn spec_is_crash_loop(self) -> bool {
        self.count >= CRASH_LOOP_THRESHOLD
    }

    /// Returns `true` when the restart count has reached the crash-loop threshold.
    pub fn is_crash_loop(&self) -> (r: bool)
        ensures
            r == self.spec_is_crash_loop(),
    {
        self.count >= CRASH_LOOP_THRESHOLD
    }

    /// Increments the restart counter and records the timestamp.
    pub fn record_restart(&mut self, now: Timestamp)
        requires
            old(self).count < u32::MAX,
        ensures
            *final(self) == (RestartState {
                count: (old(self).count + 1) as u32,
                last_restart: Some(now),
                last_healthy_since: None,
            }),
    {
        self.count = self.count + 1;
        self.last_restart = Some(now);
        self.last_healthy_since = None;
    }
}

/// The restart state after an exit that the policy allows a restart for:
/// a pod already in a crash loop keeps its state; otherwise the restart is
/// counted at `now` and the healthy period ends.
pub open spec fn after_exit(st: RestartState, now: Timestamp) -> RestartState {
    if st.spec_is_crash_loop() {
        st
    } else {
        RestartState { count: (st.count + 1) as u32, last_restart: Some(now), last_healthy_since: None }
    }
}

/// The restart state after `k` such exits in a row, each at `now`.
pub open spec fn after_exits(st: RestartState, k: nat, now: Timestamp) -> RestartState
    decreases k,
{
    if k == 0 {
        st
    } else {
        after_exit(after_exits(st, (k - 1) as nat, now), now)
    }
}

/// A pod that keeps exiting, with no healthy period in between, counts one
/// restart per exit until it reaches the crash-loop threshold, and from
/// then on stays in a crash loop with the count at the threshold.
pub proof fn repeated_exits_reach_crash_loop(k: nat, now: Timestamp)
    ensures
        after_exits(RestartState { count: 0, last_restart: None, last_healthy_since: None }, k, now).count == if k
            < CRASH_LOOP_THRESHOLD {
            k
        } else {
            CRASH_LOOP_THRESHOLD as nat
        },
        after_exits(RestartState { count: 0, last_restart: None, last_healthy_since: None }, k, now).spec_is_crash_loop()
            <==> k >= CRASH_LOOP_THRESHOLD,
    decreases k,
{
    if k > 0 {
        repeated_exits_reach_crash_loop((k - 1) as nat, now);
    }
}

} // verus!
