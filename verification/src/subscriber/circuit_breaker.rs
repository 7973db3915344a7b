use crate::clock::{deadline, deadline_after, elapsed_ms};
use crate::config::{RecoveryConfig, RegularHealerFields};
use std::collections::VecDeque;
use vstd::prelude::*;

verus! {

/// Length of the trial window that follows a cooldown, in seconds.
pub const HALF_OPEN_PROBE_SECS: u64 = 2;

/// Cooldown used where the configuration names none, in seconds.
pub const DEFAULT_COOLDOWN_SECS: u64 = 5;

/// Where a breaker stands: it lets restarts through, it denies them, or it
/// lets one through on trial.
#[derive(Clone, Copy, Debug, PartialEq, Eq)]
pub enum BreakerState {
    Closed,
    Open,
    HalfOpen,
}

/// An attempt made at `start` still counts at `now`: less than `window_secs`
/// have gone by.
pub open spec fn in_window(start: u64, now: u64, window_secs: u64) -> bool {
    elapsed_ms(start, now) < window_secs * 1000
}

/// Whether an attempt still counts at `now`, as a predicate on attempts.
pub open spec fn window_pred(now: u64, window_secs: u64) -> spec_fn(u64) -> bool {
    |start: u64| in_window(start, now, window_secs)
}

/// The cooldown a policy asks for; the default where it is not a regular one.
pub open spec fn cooldown_of(policy: Option<RecoveryConfig>) -> u64 {
    match policy {
        Some(RecoveryConfig::Regular(f)) => f.cooldown_secs,
        _ => DEFAULT_COOLDOWN_SECS,
    }
}

/// What a breaker is, as mathematics: the attempt log, oldest first, and the
/// state with its two deadlines.
pub struct BreakerModel {
    pub attempts: Seq<u64>,
    pub state: BreakerState,
    pub open_until: Option<u128>,
    pub half_open_safe_until: Option<u128>,
}

impl BreakerModel {
    /// A closed breaker without history.
    pub open spec fn fresh() -> BreakerModel {
        BreakerModel {
            attempts: Seq::empty(),
            state: BreakerState::Closed,
            open_until: None,
            half_open_safe_until: None,
        }
    }

    /// Open carries its cooldown deadline, HalfOpen its trial deadline.
    pub open spec fn wf(self) -> bool {
        &&& self.state == BreakerState::Open ==> self.open_until is Some
        &&& self.state == BreakerState::HalfOpen ==> self.half_open_safe_until is Some
    }

    /// The breaker after it tripped at `now`: open for `cooldown_secs`, its log
    /// emptied.
    pub open spec fn tripped(self, now: u64, cooldown_secs: u64) -> BreakerModel {
        BreakerModel {
            attempts: Seq::empty(),
            state: BreakerState::Open,
            open_until: Some(deadline_after(now, cooldown_secs)),
            half_open_safe_until: self.half_open_safe_until,
        }
    }

    /// A request to a closed breaker. Under a regular policy the attempts that
    /// left the window are dropped; if as many remain as the policy allows, the
    /// breaker trips and denies, else it logs the request and allows it. While
    /// the configuration does not know the target, the request is allowed.
    pub open spec fn step_closed(self, policy: Option<RecoveryConfig>, now: u64) -> (
        BreakerModel,
        bool,
    ) {
        match policy {
            Some(RecoveryConfig::Regular(f)) => {
                let kept = self.attempts.filter(window_pred(now, f.retry_window_secs));
                if kept.len() == f.retries {
                    (self.tripped(now, f.cooldown_secs), false)
                } else {
                    (BreakerModel { attempts: kept.push(now), ..self }, true)
                }
            },
            _ => (self, true),
        }
    }

    /// A request to an open breaker: denied while the cooldown runs, let
    /// through on trial once it is over. A breaker that is open without a
    /// deadline gets one, and denies.
    pub open spec fn step_open(self, policy: Option<RecoveryConfig>, now: u64) -> (
        BreakerModel,
        bool,
    ) {
        match self.open_until {
            Some(until) => if now < until {
                (self, false)
            } else {
                (
                    BreakerModel {
                        attempts: Seq::empty(),
                        state: BreakerState::HalfOpen,
                        half_open_safe_until: Some(deadline_after(now, HALF_OPEN_PROBE_SECS)),
                        ..self
                    },
                    true,
                )
            },
            None => (
                BreakerModel {
                    open_until: Some(deadline_after(now, cooldown_of(policy))),
                    ..self
                },
                false,
            ),
        }
    }

    /// A request to a breaker on trial: one that comes before the trial window
    /// is over means that the trial failed, and reopens the breaker; a later
    /// one means that the trial held, and closes it.
    pub open spec fn step_half_open(self, policy: Option<RecoveryConfig>, now: u64) -> (
        BreakerModel,
        bool,
    ) {
        match self.half_open_safe_until {
            Some(safe_until) if now < safe_until => (
                BreakerModel {
                    attempts: Seq::empty(),
                    state: BreakerState::Open,
                    open_until: Some(deadline_after(now, cooldown_of(policy))),
                    half_open_safe_until: None,
                },
                false,
            ),
            _ => (
                BreakerModel {
                    attempts: Seq::empty(),
                    state: BreakerState::Closed,
                    half_open_safe_until: None,
                    ..self
                },
                true,
            ),
        }
    }

    /// One decision request at `now`: the next breaker, and whether the
    /// restart may go ahead. `policy` is the target's recovery policy, `None`
    /// where the configuration does not know the target.
    pub open spec fn step(self, policy: Option<RecoveryConfig>, now: u64) -> (BreakerModel, bool) {
        if policy is Some && policy->0 is NotRegular {
            (self, false)
        } else {
            match self.state {
                BreakerState::Closed => self.step_closed(policy, now),
                BreakerState::Open => self.step_open(policy, now),
                BreakerState::HalfOpen => self.step_half_open(policy, now),
            }
        }
    }
}

/// Restart budget of one target.
#[derive(Debug, PartialEq, Eq)]
pub struct CircuitBreakerStats {
    /// Instants of the attempts that still count, oldest first.
    pub recovery_session_starts: VecDeque<u64>,
    pub recovery_state: BreakerState,
    /// End of the cooldown; set while Open.
    pub open_until: Option<u128>,
    /// End of the trial window; set while HalfOpen.
    pub half_open_safe_until: Option<u128>,
}

impl View for CircuitBreakerStats {
    type V = BreakerModel;

    open spec fn view(&self) -> BreakerModel {
        BreakerModel {
            attempts: self.recovery_session_starts@,
            state: self.recovery_state,
            open_until: self.open_until,
            half_open_safe_until: self.half_open_safe_until,
        }
    }
}

/// Whether an attempt made at `start` still counts at `now`.
pub fn attempt_in_window(start: u64, now: u64, window_secs: u64) -> (r: bool)
    ensures
        r == in_window(start, now, window_secs),
{
    let elapsed: u64 = if now >= start {
        now - start
    } else {
        0
    };
    elapsed / 1000 < window_secs
}

impl Default for CircuitBreakerStats {
    fn default() -> (r: Self)
        ensures
            r@ == BreakerModel::fresh(),
    {
        CircuitBreakerStats {
            recovery_session_starts: VecDeque::new(),
            recovery_state: BreakerState::Closed,
            open_until: None,
            half_open_safe_until: None,
        }
    }
}

impl CircuitBreakerStats {
    /// A closed breaker without history.
    pub fn new() -> (r: Self)
        ensures
            r@ == BreakerModel::fresh(),
            r@.wf(),
    {
        CircuitBreakerStats {
            recovery_session_starts: VecDeque::new(),
            recovery_state: BreakerState::Closed,
            open_until: None,
            half_open_safe_until: None,
        }
    }

    /// Drops the attempts that have left the window.
    pub fn prune(&mut self, now: u64, window_secs: u64)
        ensures
            final(self)@ == (BreakerModel {
                attempts: old(self)@.attempts.filter(window_pred(now, window_secs)),
                ..old(self)@
            }),
    {
        let ghost before = self.recovery_session_starts@;
        let ghost pred = window_pred(now, window_secs);
        let mut kept: VecDeque<u64> = VecDeque::new();
        let mut i: usize = 0;
        proof {
            reveal(Seq::filter);
            assert(before.take(0) =~= Seq::<u64>::empty());
        }
        while i < self.recovery_session_starts.len()
            invariant
                self.recovery_session_starts@ == before,
                i <= before.len(),
                pred == window_pred(now, window_secs),
                kept@ == before.take(i as int).filter(pred),
            decreases before.len() - i,
        {
            let start = self.recovery_session_starts[i];
            proof {
                assert(before.take(i + 1) =~= before.take(i as int).push(start));
                before.take(i as int).lemma_filter_push(start, pred);
            }
            if attempt_in_window(start, now, window_secs) {
                kept.push_back(start);
            }
            i += 1;
        }
        proof {
            assert(before.take(i as int) =~= before);
        }
        self.recovery_session_starts = kept;
    }

    /// Answers one decision request at `now` and moves the breaker on.
    /// `policy` is the target's recovery policy, `None` where the
    /// configuration does not know the target. Returns whether the restart
    /// may go ahead.
    pub fn decide(&mut self, policy: Option<RecoveryConfig>, now: u64) -> (allow: bool)
        ensures
            (final(self)@, allow) == old(self)@.step(policy, now),
            old(self)@.wf() ==> final(self)@.wf(),
    {
        let cooldown_secs: u64 = match policy {
            Some(RecoveryConfig::NotRegular(_)) => {
                return false;
            },
            Some(RecoveryConfig::Regular(f)) => f.cooldown_secs,
            None => DEFAULT_COOLDOWN_SECS,
        };
        match self.recovery_state {
            BreakerState::Closed => {
                match policy {
                    Some(RecoveryConfig::Regular(f)) => {
                        self.prune(now, f.retry_window_secs);
                        if self.recovery_session_starts.len() == f.retries as usize {
                            self.recovery_state = BreakerState::Open;
                            self.open_until = Some(deadline(now, f.cooldown_secs));
                            self.recovery_session_starts.clear();
                            false
                        } else {
                            self.recovery_session_starts.push_back(now);
                            true
                        }
                    },
                    _ => true,
                }
            },
            BreakerState::Open => {
                match self.open_until {
                    Some(until) => {
                        if (now as u128) < until {
                            false
                        } else {
                            self.recovery_state = BreakerState::HalfOpen;
                            self.recovery_session_starts.clear();
                            self.half_open_safe_until = Some(deadline(now, HALF_OPEN_PROBE_SECS));
                            true
                        }
                    },
                    None => {
                        self.open_until = Some(deadline(now, cooldown_secs));
                        false
                    },
                }
            },
            BreakerState::HalfOpen => {
                let failed_fast = match self.half_open_safe_until {
                    Some(safe_until) => (now as u128) < safe_until,
                    None => false,
                };
                self.recovery_session_starts.clear();
                self.half_open_safe_until = None;
                if failed_fast {
                    self.recovery_state = BreakerState::Open;
                    self.open_until = Some(deadline(now, cooldown_secs));
                    false
                } else {
                    self.recovery_state = BreakerState::Closed;
                    true
                }
            },
        }
    }
}

impl BreakerModel {
    /// The breaker after the decision requests at `times`, in order, and how
    /// many of them were allowed.
    pub open spec fn run(self, policy: Option<RecoveryConfig>, times: Seq<u64>) -> (BreakerModel, nat)
        decreases times.len(),
    {
        if times.len() == 0 {
            (self, 0)
        } else {
            let (before, allowed) = self.run(policy, times.drop_last());
            let (after, allow) = before.step(policy, times.last());
            (after, if allow { allowed + 1 } else { allowed })
        }
    }

    /// A closed breaker that has logged exactly `attempts`.
    pub open spec fn closed_with(attempts: Seq<u64>) -> BreakerModel {
        BreakerModel { attempts, ..BreakerModel::fresh() }
    }
}

/// A clock never runs backwards over `times`.
pub open spec fn nondecreasing(times: Seq<u64>) -> bool {
    forall|i: int, j: int| 0 <= i <= j < times.len() ==> times[i] <= times[j]
}

proof fn lemma_filter_keeps_all(s: Seq<u64>, pred: spec_fn(u64) -> bool)
    requires
        forall|i: int| 0 <= i < s.len() ==> pred(#[trigger] s[i]),
    ensures
        s.filter(pred) == s,
    decreases s.len(),
{
    reveal(Seq::filter);
    if s.len() > 0 {
        lemma_filter_keeps_all(s.drop_last(), pred);
        assert(s.drop_last().push(s.last()) =~= s);
    }
}

proof fn lemma_burst_prefix(f: RegularHealerFields, times: Seq<u64>, k: int)
    requires
        nondecreasing(times),
        times.len() > 0 ==> times.last() - times[0] < f.retry_window_secs * 1000,
        0 <= k <= times.len(),
        k <= f.retries,
    ensures
        BreakerModel::fresh().run(Some(RecoveryConfig::Regular(f)), times.take(k)) == (
            BreakerModel::closed_with(times.take(k)),
            k as nat,
        ),
    decreases k,
{
    let policy = Some(RecoveryConfig::Regular(f));
    if k == 0 {
        assert(times.take(0) =~= Seq::<u64>::empty());
    } else {
        lemma_burst_prefix(f, times, k - 1);
        let now = times[k - 1];
        let logged = times.take(k - 1);
        assert(times.take(k).drop_last() =~= logged);
        assert(times.take(k).last() == now);
        assert forall|i: int| 0 <= i < logged.len() implies window_pred(now, f.retry_window_secs)(
            #[trigger] logged[i],
        ) by {
            assert(times[0] <= times[i] <= now <= times.last());
        }
        lemma_filter_keeps_all(logged, window_pred(now, f.retry_window_secs));
        assert(logged.push(now) =~= times.take(k));
    }
}

/// Breaker count. A burst of requests that all fall inside one retry window
/// meets a fresh breaker: each of the first `min(N, retries)` is allowed and
/// leaves the breaker closed, and the request after them, if there is one,
/// is denied and opens the breaker for the cooldown.
pub proof fn lemma_burst_allows_exactly_retries(f: RegularHealerFields, times: Seq<u64>)
    requires
        nondecreasing(times),
        times.len() > 0 ==> times.last() - times[0] < f.retry_window_secs * 1000,
    ensures
        ({
            let policy = Some(RecoveryConfig::Regular(f));
            let served = if times.len() <= f.retries { times.len() as int } else { f.retries as int };
            let (breaker, allowed) = BreakerModel::fresh().run(policy, times.take(served));
            &&& allowed == served
            &&& breaker == BreakerModel::closed_with(times.take(served))
            &&& times.len() > f.retries ==> breaker.step(policy, times[served]) == (
                breaker.tripped(times[served], f.cooldown_secs),
                false,
            )
        }),
{
    let policy = Some(RecoveryConfig::Regular(f));
    let served = if times.len() <= f.retries { times.len() as int } else { f.retries as int };
    lemma_burst_prefix(f, times, served);
    if times.len() > f.retries {
        let now = times[served];
        let logged = times.take(served);
        assert forall|i: int| 0 <= i < logged.len() implies window_pred(now, f.retry_window_secs)(
            #[trigger] logged[i],
        ) by {
            assert(times[0] <= times[i] <= now <= times.last());
        }
        lemma_filter_keeps_all(logged, window_pred(now, f.retry_window_secs));
    }
}

/// Breaker timing. While the cooldown of an open breaker runs, every request
/// is denied and leaves the breaker as it was, whatever the policy says by
/// then.
pub proof fn lemma_open_denies_during_cooldown(
    breaker: BreakerModel,
    policy: Option<RecoveryConfig>,
    times: Seq<u64>,
)
    requires
        breaker.state == BreakerState::Open,
        breaker.open_until is Some,
        forall|i: int| 0 <= i < times.len() ==> times[i] < breaker.open_until->0,
    ensures
        breaker.run(policy, times) == (breaker, 0nat),
    decreases times.len(),
{
    if times.len() > 0 {
        lemma_open_denies_during_cooldown(breaker, policy, times.drop_last());
    }
}

/// Breaker timing, from the trip. A breaker that opened at `opened_at` under
/// a cooldown of `cooldown_secs` allows nothing before
/// `opened_at + cooldown_secs`.
pub proof fn lemma_no_restart_before_cooldown_ends(
    breaker: BreakerModel,
    opened_at: u64,
    cooldown_secs: u64,
    policy: Option<RecoveryConfig>,
    times: Seq<u64>,
)
    requires
        forall|i: int| 0 <= i < times.len() ==> times[i] < opened_at + cooldown_secs * 1000,
    ensures
        breaker.tripped(opened_at, cooldown_secs).run(policy, times).1 == 0,
{
    lemma_open_denies_during_cooldown(breaker.tripped(opened_at, cooldown_secs), policy, times);
}

/// HalfOpen absorption. The first request after the cooldown is let through
/// as a trial; a second one less than two seconds later is denied and sends
/// the breaker back to Open, with a cooldown that starts at that request.
pub proof fn lemma_failed_trial_reopens(
    breaker: BreakerModel,
    policy: Option<RecoveryConfig>,
    trial_at: u64,
    failure_at: u64,
)
    requires
        breaker.state == BreakerState::Open,
        breaker.open_until is Some,
        !(policy is Some && policy->0 is NotRegular),
        breaker.open_until->0 <= trial_at,
        failure_at < trial_at + HALF_OPEN_PROBE_SECS * 1000,
    ensures
        ({
            let (trial, allowed) = breaker.step(policy, trial_at);
            let (after, allowed_again) = trial.step(policy, failure_at);
            &&& allowed
            &&& trial.state == BreakerState::HalfOpen
            &&& !allowed_again
            &&& after.state == BreakerState::Open
            &&& after.open_until == Some(deadline_after(failure_at, cooldown_of(policy)))
            &&& after.attempts.len() == 0
        }),
{
}

/// Every step keeps a well-formed breaker well-formed.
pub proof fn lemma_step_keeps_wf(breaker: BreakerModel, policy: Option<RecoveryConfig>, now: u64)
    requires
        breaker.wf(),
    ensures
        breaker.step(policy, now).0.wf(),
{
}

/// The attempt log of a closed breaker holds, after a request under a regular
/// policy, only that request and attempts inside the retry window.
pub proof fn lemma_log_stays_in_window(breaker: BreakerModel, f: RegularHealerFields, now: u64)
    requires
        breaker.state == BreakerState::Closed,
    ensures
        ({
            let after = breaker.step(Some(RecoveryConfig::Regular(f)), now).0;
            forall|i: int|
                0 <= i < after.attempts.len() ==> #[trigger] after.attempts[i] == now || in_window(
                    after.attempts[i],
                    now,
                    f.retry_window_secs,
                )
        }),
{
    let pred = window_pred(now, f.retry_window_secs);
    let kept = breaker.attempts.filter(pred);
    assert forall|i: int| 0 <= i < kept.len() implies pred(#[trigger] kept[i]) by {
        breaker.attempts.lemma_filter_pred(pred, i);
    }
}

} // verus!
