use crate::clock::{deadline, deadline_after};
use crate::config::{
    config_names, lemma_first_named, names_process, process_named, AppConfig, DependencyConfig,
    DependencyKind, OnFailure, ProcessConfig,
};
use crate::event_bus::ProcessEvent;
use crate::name_map::NameMap;
use crate::subscriber::Subscriber;
use crate::text::{holds_name, name_set, str_eq};
use vstd::prelude::*;
use vstd::string::*;

verus! {

/// How long a target counts as recovering after a failure of it was seen.
pub const RECOVERING_HOLD_SECS: u64 = 10;

/// Delay of the first retry of a deferred event.
pub const FIRST_RETRY_SECS: u64 = 5;

/// Whether the coordinator still waits for a dependency.
#[derive(Debug, Clone, Copy, PartialEq, Eq, Structural)]
pub enum DepWaitStatus {
    Waiting,
    TimedOut,
}

/// One edge of a deferred target, and whether the coordinator still waits for it.
#[derive(Debug, PartialEq, Eq)]
pub struct PerDepState {
    pub cfg: DependencyConfig,
    pub status: DepWaitStatus,
}

impl Clone for PerDepState {
    fn clone(&self) -> (r: Self)
        ensures
            r == *self,
    {
        PerDepState { cfg: self.cfg.clone(), status: self.status }
    }
}

/// A failure event that is held back while dependencies of its target recover.
#[derive(Debug, PartialEq, Eq)]
pub struct DeferredState {
    /// The event to pass on if the wait ends well.
    pub original_event: ProcessEvent,
    /// How often the event was looked at and held back.
    pub deferred_count: u32,
    pub first_deferred_at: u64,
    pub last_eval_at: u64,
    pub next_retry_at: u128,
    /// The edges that can hold the event back.
    pub deps: Vec<PerDepState>,
    /// Targets that held the event back when it was last looked at.
    pub waiting_on: Vec<String>,
}

/// A deferred event as mathematics.
pub struct DeferredModel {
    pub original_event: ProcessEvent,
    pub deferred_count: u32,
    pub first_deferred_at: u64,
    pub last_eval_at: u64,
    pub next_retry_at: u128,
    pub deps: Seq<PerDepState>,
    pub waiting_on: Seq<String>,
}

impl View for DeferredState {
    type V = DeferredModel;

    open spec fn view(&self) -> DeferredModel {
        DeferredModel {
            original_event: self.original_event,
            deferred_count: self.deferred_count,
            first_deferred_at: self.first_deferred_at,
            last_eval_at: self.last_eval_at,
            next_retry_at: self.next_retry_at,
            deps: self.deps@,
            waiting_on: self.waiting_on@,
        }
    }
}

/// Why the coordinator let an input go without acting on it.
#[derive(Debug, Clone, Copy, PartialEq, Eq, Structural)]
pub enum DropReason {
    /// An event for this target is held back already.
    AlreadyDeferred,
    /// A dependency with the abort policy ran out of time.
    Aborted,
    /// A retry came for a target that is not held back.
    NotDeferred,
}

/// What the coordinator asks of the task that runs it.
#[derive(Debug, PartialEq, Eq)]
pub enum Decision {
    /// Publish the event on the healer's bus.
    Forward(ProcessEvent),
    /// The event of `name` is held back: wake the coordinator for it in
    /// `retry_in_secs`.
    Defer { name: String, retry_in_secs: u64 },
    /// Nothing goes out.
    Drop(DropReason),
}

/// The wait before the next look at an event that was held back
/// `prev_attempts` times: 5 seconds up to the first time, 10 after the
/// second, 20 after the third, and 30 from then on.
pub open spec fn backoff_secs(prev_attempts: u32) -> u64 {
    if prev_attempts <= 1 {
        5
    } else if prev_attempts == 2 {
        10
    } else if prev_attempts == 3 {
        20
    } else {
        30
    }
}

/// One more than `count`, as far as the counter goes.
pub open spec fn bumped(count: u32) -> u32 {
    if count < u32::MAX {
        (count + 1) as u32
    } else {
        count
    }
}

/// Whether an edge is a Requires edge.
pub open spec fn is_requires() -> spec_fn(DependencyConfig) -> bool {
    |d: DependencyConfig| d.kind == DependencyKind::Requires
}

/// Whether an edge is hard and leads to one of the targets `managed`.
pub open spec fn is_hard_and_managed(managed: Set<Seq<char>>) -> spec_fn(DependencyConfig) -> bool {
    |d: DependencyConfig| d.hard && managed.contains(d.target@)
}

/// The Requires edges of `name`, in the order written; none where the
/// configuration does not know `name`.
pub open spec fn requires_edges(processes: Seq<ProcessConfig>, name: Seq<char>) -> Seq<
    DependencyConfig,
> {
    match process_named(processes, name) {
        Some(p) => p.resolved_deps().filter(is_requires()),
        None => Seq::empty(),
    }
}

/// The edges that can hold back a restart of `name`: its hard Requires edges
/// to targets the configuration knows.
pub open spec fn gating_edges(processes: Seq<ProcessConfig>, name: Seq<char>) -> Seq<
    DependencyConfig,
> {
    requires_edges(processes, name).filter(is_hard_and_managed(config_names(processes)))
}

/// The edge `edge`, waited for.
pub open spec fn waiting(edge: DependencyConfig) -> PerDepState {
    PerDepState { cfg: edge, status: DepWaitStatus::Waiting }
}

/// The target of an edge.
pub open spec fn target_of(edge: DependencyConfig) -> String {
    edge.target
}

/// The target of a dependency.
pub open spec fn dep_target(dep: PerDepState) -> String {
    dep.cfg.target
}

/// The recovering marks that have not run out at `now`.
pub open spec fn alive(recovering: Map<Seq<char>, u128>, now: u64) -> Map<Seq<char>, u128> {
    Map::new(
        |name: Seq<char>| recovering.contains_key(name) && now < recovering[name],
        |name: Seq<char>| recovering[name],
    )
}

/// The coordinator as mathematics.
pub struct CoordinatorModel {
    /// The names of the configuration last seen.
    pub managed: Set<Seq<char>>,
    /// The events held back, by target.
    pub deferred: Map<Seq<char>, DeferredModel>,
    /// Until when each target counts as recovering.
    pub recovering: Map<Seq<char>, u128>,
}

impl CoordinatorModel {
    /// A coordinator that holds nothing back and has seen no failure.
    pub open spec fn initial() -> CoordinatorModel {
        CoordinatorModel { managed: Set::empty(), deferred: Map::empty(), recovering: Map::empty() }
    }

    /// Whether `name` counts as recovering at `now`.
    pub open spec fn is_recovering(self, name: Seq<char>, now: u64) -> bool {
        self.recovering.contains_key(name) && now < self.recovering[name]
    }

    /// The coordinator after it has taken in the configuration and dropped
    /// the recovering marks that ran out.
    pub open spec fn refreshed(self, processes: Seq<ProcessConfig>, now: u64) -> CoordinatorModel {
        CoordinatorModel {
            managed: config_names(processes),
            recovering: alive(self.recovering, now),
            ..self
        }
    }

    /// The coordinator after `name` was marked as recovering from `now` on.
    pub open spec fn marked(self, name: Seq<char>, now: u64) -> CoordinatorModel {
        CoordinatorModel {
            recovering: self.recovering.insert(name, deadline_after(now, RECOVERING_HOLD_SECS)),
            ..self
        }
    }

    /// Whether an edge of `owner` holds a restart of `owner` back at `now`:
    /// it leads to another target, and that target is recovering.
    pub open spec fn holds_back(self, owner: Seq<char>, now: u64) -> spec_fn(DependencyConfig) -> bool {
        |d: DependencyConfig| d.target@ != owner && self.is_recovering(d.target@, now)
    }

    /// Whether a dependency of the deferred `owner` still blocks at `now`.
    pub open spec fn blocks(self, owner: Seq<char>, now: u64) -> spec_fn(PerDepState) -> bool {
        |p: PerDepState|
            p.status == DepWaitStatus::Waiting && p.cfg.kind == DependencyKind::Requires
                && p.cfg.hard && p.cfg.target@ != owner && self.managed.contains(p.cfg.target@)
                && self.is_recovering(p.cfg.target@, now)
    }

    /// What a failure event of `name` becomes when it is held back at `now`.
    pub open spec fn deferral(self, processes: Seq<ProcessConfig>, evt: ProcessEvent, now: u64) -> DeferredModel {
        let name = evt.failed_name();
        let gating = gating_edges(processes, name);
        DeferredModel {
            original_event: evt,
            deferred_count: 1,
            first_deferred_at: now,
            last_eval_at: now,
            next_retry_at: deadline_after(now, FIRST_RETRY_SECS),
            deps: gating.map_values(|d: DependencyConfig| waiting(d)),
            waiting_on: gating.filter(self.holds_back(name, now)).map_values(
                |d: DependencyConfig| target_of(d),
            ),
        }
    }

    /// One event from the monitors, taken in at `now` under the
    /// configuration `processes`: the next coordinator, and what goes out.
    ///
    /// An event that reports no failure passes through. A failure marks its
    /// target as recovering. It is dropped if an event of that target is held
    /// back already, passed on if no gating edge leads to a recovering
    /// target, and held back otherwise.
    pub open spec fn on_event(self, processes: Seq<ProcessConfig>, evt: ProcessEvent, now: u64) -> (
        CoordinatorModel,
        Decision,
    ) {
        if !evt.is_failure() {
            (self, Decision::Forward(evt))
        } else {
            let name = evt.failed_name();
            let seen = self.refreshed(processes, now).marked(name, now);
            if seen.deferred.contains_key(name) {
                (seen, Decision::Drop(DropReason::AlreadyDeferred))
            } else if gating_edges(processes, name).filter(seen.holds_back(name, now)).len() == 0 {
                (seen, Decision::Forward(evt))
            } else {
                (
                    CoordinatorModel {
                        deferred: seen.deferred.insert(name, seen.deferral(processes, evt, now)),
                        ..seen
                    },
                    Decision::Defer {
                        name: evt.failed_string(),
                        retry_in_secs: FIRST_RETRY_SECS,
                    },
                )
            }
        }
    }
}

/// Whether the time a dependency was given has run out at `now`, for an
/// event first held back at `first_deferred_at`.
pub open spec fn expired(first_deferred_at: u64, now: u64) -> spec_fn(PerDepState) -> bool {
    |p: PerDepState| now >= first_deferred_at + p.cfg.max_wait_secs * 1000
}

impl CoordinatorModel {
    /// Whether some dependency of `owner` that still blocks has run out of
    /// time under the abort policy.
    pub open spec fn aborts(self, owner: Seq<char>, state: DeferredModel, now: u64) -> bool {
        exists|i: int|
            0 <= i < state.deps.len() && self.blocks(owner, now)(#[trigger] state.deps[i])
                && expired(state.first_deferred_at, now)(state.deps[i])
                && state.deps[i].cfg.on_failure == OnFailure::Abort
    }

    /// A dependency after the timeout policy was applied to it: given up on
    /// if it still blocks and has run out of time.
    pub open spec fn settle(self, owner: Seq<char>, first_deferred_at: u64, now: u64) -> spec_fn(
        PerDepState,
    ) -> PerDepState {
        |p: PerDepState|
            if self.blocks(owner, now)(p) && expired(first_deferred_at, now)(p) {
                PerDepState { status: DepWaitStatus::TimedOut, ..p }
            } else {
                p
            }
    }

    /// Whether a dependency still blocks and still has time.
    pub open spec fn still_blocks(self, owner: Seq<char>, first_deferred_at: u64, now: u64) -> spec_fn(
        PerDepState,
    ) -> bool {
        |p: PerDepState| self.blocks(owner, now)(p) && !expired(first_deferred_at, now)(p)
    }

    /// One retry wake for `name`, taken in at `now` under the configuration
    /// `processes`: the next coordinator, and what goes out.
    ///
    /// A wake for a target that is not held back changes nothing. Otherwise
    /// the dependencies that still block are held to their deadlines: if one
    /// with the abort policy has run out of time, the event is dropped for
    /// good; those with another policy that have run out of time are given
    /// up on. The event is passed on if nothing blocks any more. If something
    /// does, it is held back for another wait, whose length follows from how
    /// often the event was held back before: 5 seconds after the first time,
    /// then 10, then 20, then 30 for every later one.
    pub open spec fn on_retry(self, processes: Seq<ProcessConfig>, name: String, now: u64) -> (
        CoordinatorModel,
        Decision,
    ) {
        if !self.deferred.contains_key(name@) {
            (self, Decision::Drop(DropReason::NotDeferred))
        } else {
            let seen = self.refreshed(processes, now);
            let state = seen.deferred[name@];
            let released = CoordinatorModel { deferred: seen.deferred.remove(name@), ..seen };
            let still = state.deps.filter(seen.still_blocks(name@, state.first_deferred_at, now));
            if seen.aborts(name@, state, now) {
                (released, Decision::Drop(DropReason::Aborted))
            } else if still.len() == 0 {
                (released, Decision::Forward(state.original_event))
            } else {
                let wait = backoff_secs(state.deferred_count);
                let held = DeferredModel {
                    deferred_count: bumped(state.deferred_count),
                    last_eval_at: now,
                    next_retry_at: deadline_after(now, wait),
                    deps: state.deps.map_values(seen.settle(name@, state.first_deferred_at, now)),
                    waiting_on: still.map_values(|p: PerDepState| dep_target(p)),
                    ..state
                };
                (
                    CoordinatorModel { deferred: seen.deferred.insert(name@, held), ..seen },
                    Decision::Defer { name, retry_in_secs: wait },
                )
            }
        }
    }
}

/// Decides which failure events reach the healer, and when.
pub struct DependencyCoordinator {
    managed_targets: Vec<String>,
    deferred: NameMap<DeferredState>,
    recovering_until: NameMap<u128>,
}

impl View for DependencyCoordinator {
    type V = CoordinatorModel;

    closed spec fn view(&self) -> CoordinatorModel {
        CoordinatorModel {
            managed: name_set(self.managed_targets@),
            deferred: self.deferred@.map_values(|s: DeferredState| s@),
            recovering: self.recovering_until@,
        }
    }
}

impl DependencyCoordinator {
    /// The wait before the next look at an event that was held back
    /// `prev_attempts` times: 5, 5, 10 and 20 seconds, then 30.
    pub fn compute_backoff(prev_attempts: u32) -> (secs: u64)
        ensures
            secs == backoff_secs(prev_attempts),
    {
        match prev_attempts {
            0 | 1 => 5,
            2 => 10,
            3 => 20,
            _ => 30,
        }
    }

    /// The tables are sound: no name twice.
    pub closed spec fn wf(&self) -> bool {
        self.deferred.wf() && self.recovering_until.wf()
    }

    /// A coordinator that holds nothing back and has seen no failure.
    pub fn new() -> (r: Self)
        ensures
            r.wf(),
            r@ == CoordinatorModel::initial(),
    {
        let r = DependencyCoordinator {
            managed_targets: Vec::new(),
            deferred: NameMap::new(),
            recovering_until: NameMap::new(),
        };
        proof {
            assert(r@.managed =~= Set::<Seq<char>>::empty());
            assert(r@.deferred =~= Map::<Seq<char>, DeferredModel>::empty());
        }
        r
    }

    /// Marks `name` as recovering for the hold time, from `now` on.
    pub fn mark_recovering_until(&mut self, name: &str, now: u64)
        requires
            old(self).wf(),
        ensures
            final(self).wf(),
            final(self)@ == old(self)@.marked(name@, now),
    {
        self.recovering_until.insert(name.to_owned(), deadline(now, RECOVERING_HOLD_SECS));
    }

    /// Whether `name` counts as recovering at `now`.
    pub fn is_recovering(&self, name: &str, now: u64) -> (r: bool)
        requires
            self.wf(),
        ensures
            r == self@.is_recovering(name@, now),
    {
        match self.recovering_until.get(name) {
            Some(until) => (now as u128) < *until,
            None => false,
        }
    }

    /// Drops the recovering marks that have run out at `now`.
    pub fn prune_recovering(&mut self, now: u64)
        requires
            old(self).wf(),
        ensures
            final(self).wf(),
            final(self)@ == (CoordinatorModel {
                recovering: alive(old(self)@.recovering, now),
                ..old(self)@
            }),
    {
        let ghost before = self.recovering_until@;
        let ghost names = self.recovering_until.names();
        let ghost values = self.recovering_until.values();
        let mut kept: NameMap<u128> = NameMap::new();
        let mut i: usize = 0;
        proof {
            self.recovering_until.lemma_slots();
        }
        while i < self.recovering_until.len()
            invariant
                self.recovering_until.wf(),
                self.recovering_until@ == before,
                self.recovering_until.names() == names,
                self.recovering_until.values() == values,
                kept.wf(),
                i <= names.len(),
                forall|k: Seq<char>| #[trigger]
                    kept@.contains_key(k) <==> exists|j: int|
                        0 <= j < i && #[trigger] names[j] == k && now < values[j],
                forall|k: Seq<char>| #[trigger] kept@.contains_key(k) ==> kept@[k] == before[k],
            decreases names.len() - i,
        {
            proof {
                self.recovering_until.lemma_slots();
            }
            let until = *self.recovering_until.value_at(i);
            let ghost kept_before = kept@;
            if (now as u128) < until {
                let name = self.recovering_until.name_at(i).clone();
                kept.insert(name, until);
            }
            proof {
                assert forall|k: Seq<char>| #[trigger]
                    kept@.contains_key(k) <==> exists|j: int|
                        0 <= j < i + 1 && #[trigger] names[j] == k && now < values[j] by {
                    if kept@.contains_key(k) {
                        if kept_before.contains_key(k) {
                            let j = choose|j: int| 0 <= j < i && #[trigger] names[j] == k && now < values[j];
                            assert(0 <= j < i + 1 && names[j] == k && now < values[j]);
                        } else {
                            assert(names[i as int] == k && now < values[i as int]);
                        }
                    }
                    if exists|j: int| 0 <= j < i + 1 && #[trigger] names[j] == k && now < values[j] {
                        let j = choose|j: int| 0 <= j < i + 1 && #[trigger] names[j] == k && now < values[j];
                        if j < i {
                            assert(kept_before.contains_key(k));
                        }
                    }
                }
            }
            i += 1;
        }
        proof {
            self.recovering_until.lemma_slots();
            let target = alive(before, now);
            assert forall|k: Seq<char>| target.contains_key(k) implies #[trigger] kept@.contains_key(
                k,
            ) by {
                let j = self.recovering_until.slot_of(k);
                assert(names[j] == k && now < values[j]);
            }
            assert(kept@ =~= target);
        }
        self.recovering_until = kept;
    }

    /// Takes in the configuration: its names become the managed targets, and
    /// the recovering marks that have run out are dropped.
    pub fn refresh_snapshot(&mut self, config: &AppConfig, now: u64)
        requires
            old(self).wf(),
        ensures
            final(self).wf(),
            final(self)@ == old(self)@.refreshed(config.processes@, now),
    {
        let mut managed: Vec<String> = Vec::new();
        let mut i: usize = 0;
        while i < config.processes.len()
            invariant
                i <= config.processes.len(),
                managed@.len() == i,
                forall|j: int| 0 <= j < i ==> managed@[j]@ == config.processes@[j].name@,
            decreases config.processes.len() - i,
        {
            managed.push(config.processes[i].name.clone());
            i += 1;
        }
        proof {
            let processes = config.processes@;
            assert forall|name: Seq<char>| name_set(managed@).contains(name) == config_names(
                processes,
            ).contains(name) by {
                if name_set(managed@).contains(name) {
                    let j = choose|j: int| 0 <= j < managed@.len() && #[trigger] managed@[j]@ == name;
                    assert(processes[j].name@ == name);
                }
                if names_process(processes, name) {
                    let j = choose|j: int| 0 <= j < processes.len() && #[trigger] processes[j].name@ == name;
                    assert(managed@[j]@ == name);
                }
            }
            assert(name_set(managed@) =~= config_names(processes));
        }
        self.managed_targets = managed;
        self.prune_recovering(now);
    }

    /// The Requires edges of `name`, in the order written; none where the
    /// configuration does not know `name`.
    pub fn manual_requires(&self, name: &str, config: &AppConfig) -> (r: Vec<DependencyConfig>)
        ensures
            r@ == requires_edges(config.processes@, name@),
    {
        let mut out: Vec<DependencyConfig> = Vec::new();
        match config.find_process(name) {
            Some(at) => {
                let resolved = config.processes[at].resolved_dependencies();
                let ghost pred = is_requires();
                proof {
                    lemma_first_named(config.processes@, name@, at as int);
                    reveal(Seq::filter);
                    assert(resolved@.take(0) =~= Seq::<DependencyConfig>::empty());
                }
                let mut i: usize = 0;
                while i < resolved.len()
                    invariant
                        i <= resolved.len(),
                        pred == is_requires(),
                        out@ == resolved@.take(i as int).filter(pred),
                    decreases resolved.len() - i,
                {
                    proof {
                        assert(resolved@.take(i + 1) =~= resolved@.take(i as int).push(resolved@[i as int]));
                        resolved@.take(i as int).lemma_filter_push(resolved@[i as int], pred);
                    }
                    if resolved[i].kind == DependencyKind::Requires {
                        out.push(resolved[i].clone());
                    }
                    i += 1;
                }
                proof {
                    assert(resolved@.take(i as int) =~= resolved@);
                }
                out
            },
            None => out,
        }
    }
}

impl DependencyCoordinator {
    /// Whether an event of `name` is held back.
    pub fn is_deferred(&self, name: &str) -> (r: bool)
        requires
            self.wf(),
        ensures
            r == self@.deferred.contains_key(name@),
    {
        self.deferred.contains_key(name)
    }

    /// The event of `name` that is held back, with the state of its wait.
    pub fn deferred_state(&self, name: &str) -> (r: Option<&DeferredState>)
        requires
            self.wf(),
        ensures
            match r {
                Some(state) => self@.deferred.contains_key(name@) && state@ == self@.deferred[name@],
                None => !self@.deferred.contains_key(name@),
            },
    {
        self.deferred.get(name)
    }

    /// How many events are held back.
    pub fn deferred_len(&self) -> (n: usize)
        requires
            self.wf(),
        ensures
            n == self@.deferred.len(),
    {
        proof {
            self.deferred.lemma_len();
            assert(self@.deferred.dom() =~= self.deferred@.dom());
        }
        self.deferred.len()
    }

    /// Holds the failure event `original_event` of `name` back: it enters the
    /// table with its gating edges, all waited for, and a first retry is due
    /// after `FIRST_RETRY_SECS`.
    pub fn defer_process(
        &mut self,
        name: String,
        original_event: ProcessEvent,
        deps: Vec<PerDepState>,
        blocking: Vec<String>,
        now: u64,
    ) -> (decision: Decision)
        requires
            old(self).wf(),
        ensures
            final(self).wf(),
            final(self)@ == (CoordinatorModel {
                deferred: old(self)@.deferred.insert(
                    name@,
                    DeferredModel {
                        original_event,
                        deferred_count: 1,
                        first_deferred_at: now,
                        last_eval_at: now,
                        next_retry_at: deadline_after(now, FIRST_RETRY_SECS),
                        deps: deps@,
                        waiting_on: blocking@,
                    },
                ),
                ..old(self)@
            }),
            decision == (Decision::Defer { name, retry_in_secs: FIRST_RETRY_SECS }),
    {
        let state = DeferredState {
            original_event,
            deferred_count: 1,
            first_deferred_at: now,
            last_eval_at: now,
            next_retry_at: deadline(now, FIRST_RETRY_SECS),
            deps,
            waiting_on: blocking,
        };
        let ghost before = self.deferred@;
        self.deferred.insert(name.clone(), state);
        proof {
            assert(self@.deferred =~= before.map_values(|s: DeferredState| s@).insert(name@, state@));
        }
        Decision::Defer { name, retry_in_secs: FIRST_RETRY_SECS }
    }

    /// Takes in one event from the monitors at `now`, under the
    /// configuration `config`, and says what goes out.
    pub fn decide_and_publish(&mut self, evt: ProcessEvent, config: &AppConfig, now: u64) -> (decision:
        Decision)
        requires
            old(self).wf(),
        ensures
            final(self).wf(),
            (final(self)@, decision) == old(self)@.on_event(config.processes@, evt, now),
    {
        let name: String = match evt.failed_process() {
            Some(name) => name.clone(),
            None => {
                return Decision::Forward(evt);
            },
        };
        self.refresh_snapshot(config, now);
        self.mark_recovering_until(name.as_str(), now);
        if self.deferred.contains_key(name.as_str()) {
            return Decision::Drop(DropReason::AlreadyDeferred);
        }
        let manual = self.manual_requires(name.as_str(), config);
        let ghost seen = self@;
        let ghost gate = is_hard_and_managed(config_names(config.processes@));
        let ghost holds = seen.holds_back(name@, now);
        let mut per_deps: Vec<PerDepState> = Vec::new();
        let mut blocking: Vec<String> = Vec::new();
        let mut i: usize = 0;
        proof {
            reveal(Seq::filter);
            assert(manual@.take(0) =~= Seq::<DependencyConfig>::empty());
        }
        while i < manual.len()
            invariant
                self.wf(),
                self@ == seen,
                seen.managed == config_names(config.processes@),
                gate == is_hard_and_managed(config_names(config.processes@)),
                holds == seen.holds_back(name@, now),
                i <= manual.len(),
                per_deps@ == manual@.take(i as int).filter(gate).map_values(
                    |d: DependencyConfig| waiting(d),
                ),
                blocking@ == manual@.take(i as int).filter(gate).filter(holds).map_values(
                    |d: DependencyConfig| target_of(d),
                ),
            decreases manual.len() - i,
        {
            let edge = &manual[i];
            let ghost gated = manual@.take(i as int).filter(gate);
            proof {
                assert(manual@.take(i + 1) =~= manual@.take(i as int).push(*edge));
                manual@.take(i as int).lemma_filter_push(*edge, gate);
                gated.lemma_filter_push(*edge, holds);
            }
            if edge.hard && holds_name(&self.managed_targets, edge.target.as_str()) {
                if !str_eq(edge.target.as_str(), name.as_str()) && self.is_recovering(
                    edge.target.as_str(),
                    now,
                ) {
                    blocking.push(edge.target.clone());
                    proof {
                        assert(blocking@ =~= gated.push(*edge).filter(holds).map_values(
                            |d: DependencyConfig| target_of(d),
                        ));
                    }
                }
                per_deps.push(PerDepState { cfg: edge.clone(), status: DepWaitStatus::Waiting });
                proof {
                    assert(per_deps@ =~= gated.push(*edge).map_values(
                        |d: DependencyConfig| waiting(d),
                    ));
                }
            }
            i += 1;
        }
        proof {
            assert(manual@.take(i as int) =~= manual@);
        }
        if blocking.len() == 0 {
            Decision::Forward(evt)
        } else {
            self.defer_process(name, evt, per_deps, blocking, now)
        }
    }
}

impl DependencyCoordinator {
    /// Takes in one retry wake for `name` at `now`, under the configuration
    /// `config`, and says what goes out.
    pub fn handle_retry(&mut self, name: String, config: &AppConfig, now: u64) -> (decision: Decision)
        requires
            old(self).wf(),
        ensures
            final(self).wf(),
            (final(self)@, decision) == old(self)@.on_retry(config.processes@, name, now),
    {
        if !self.deferred.contains_key(name.as_str()) {
            return Decision::Drop(DropReason::NotDeferred);
        }
        self.refresh_snapshot(config, now);
        let ghost seen = self@;
        let state = match self.deferred.remove(name.as_str()) {
            Some(state) => state,
            None => {
                return Decision::Drop(DropReason::NotDeferred);
            },
        };
        proof {
            assert(self@.deferred =~= seen.deferred.remove(name@));
        }
        let ghost released = self@;
        let ghost model = state@;
        let ghost blocks = seen.blocks(name@, now);
        let ghost late = expired(state.first_deferred_at, now);
        let ghost settle = seen.settle(name@, state.first_deferred_at, now);
        let ghost still_blocks = seen.still_blocks(name@, state.first_deferred_at, now);
        let mut abort = false;
        let mut settled: Vec<PerDepState> = Vec::new();
        let mut still: Vec<String> = Vec::new();
        let mut i: usize = 0;
        proof {
            reveal(Seq::filter);
            assert(model.deps.take(0) =~= Seq::<PerDepState>::empty());
        }
        while i < state.deps.len()
            invariant
                self.wf(),
                self@ == released,
                released.managed == seen.managed,
                released.recovering == seen.recovering,
                model == state@,
                blocks == seen.blocks(name@, now),
                late == expired(state.first_deferred_at, now),
                settle == seen.settle(name@, state.first_deferred_at, now),
                still_blocks == seen.still_blocks(name@, state.first_deferred_at, now),
                i <= state.deps.len(),
                abort <==> exists|j: int|
                    0 <= j < i && blocks(#[trigger] model.deps[j]) && late(model.deps[j])
                        && model.deps[j].cfg.on_failure == OnFailure::Abort,
                settled@ == model.deps.take(i as int).map_values(settle),
                still@ == model.deps.take(i as int).filter(still_blocks).map_values(
                    |p: PerDepState| dep_target(p),
                ),
            decreases state.deps.len() - i,
        {
            let dep = &state.deps[i];
            let ghost seen_deps = model.deps.take(i as int);
            proof {
                assert(model.deps.take(i + 1) =~= seen_deps.push(*dep));
                seen_deps.lemma_filter_push(*dep, still_blocks);
            }
            let target = dep.cfg.target.as_str();
            let dep_blocks = dep.status == DepWaitStatus::Waiting && dep.cfg.kind
                == DependencyKind::Requires && dep.cfg.hard && !str_eq(
                target,
                name.as_str(),
            ) && holds_name(&self.managed_targets, target) && self.is_recovering(target, now);
            let out_of_time = (now as u128) >= deadline(state.first_deferred_at, dep.cfg.max_wait_secs);
            assert(dep_blocks == blocks(*dep));
            assert(out_of_time == late(*dep));
            if dep_blocks && out_of_time {
                if dep.cfg.on_failure == OnFailure::Abort {
                    abort = true;
                }
                settled.push(PerDepState { cfg: dep.cfg.clone(), status: DepWaitStatus::TimedOut });
            } else {
                if dep_blocks {
                    still.push(dep.cfg.target.clone());
                }
                settled.push(dep.clone());
            }
            proof {
                assert(settled@ =~= seen_deps.push(*dep).map_values(settle));
                assert(still@ =~= seen_deps.push(*dep).filter(still_blocks).map_values(
                    |p: PerDepState| dep_target(p),
                ));
            }
            i += 1;
        }
        proof {
            assert(model.deps.take(i as int) =~= model.deps);
            assert(abort == seen.aborts(name@, model, now));
            assert(still@.len() == model.deps.filter(still_blocks).len());
        }
        if abort {
            Decision::Drop(DropReason::Aborted)
        } else if still.len() == 0 {
            Decision::Forward(state.original_event)
        } else {
            let attempts: u32 = if state.deferred_count < u32::MAX {
                state.deferred_count + 1
            } else {
                state.deferred_count
            };
            let backoff: u64 = DependencyCoordinator::compute_backoff(state.deferred_count);
            let held = DeferredState {
                original_event: state.original_event,
                deferred_count: attempts,
                first_deferred_at: state.first_deferred_at,
                last_eval_at: now,
                next_retry_at: deadline(now, backoff),
                deps: settled,
                waiting_on: still,
            };
            self.deferred.insert(name.clone(), held);
            proof {
                assert(self@.deferred =~= seen.deferred.insert(name@, held@));
            }
            Decision::Defer { name, retry_in_secs: backoff }
        }
    }
}

/// What the task that runs the coordinator hands it, one at a time.
#[derive(Debug)]
pub enum CoordinatorInput {
    /// The wait for a held-back event of this target is over.
    Retry(String),
    /// The channel that carries the retry wakes has closed.
    RetryChannelClosed,
    /// An event from the monitors.
    Event(ProcessEvent),
    /// The coordinator fell behind and missed this many events.
    Lagged(u64),
    /// The monitors' bus has closed.
    UpstreamClosed,
}

/// What the task does after one input.
#[derive(Debug, PartialEq, Eq)]
pub enum LoopStep {
    /// Carry out the decision, then wait for the next input.
    Act(Decision),
    /// Wait for the next input.
    Idle,
    /// Leave the loop.
    Stop,
}

impl CoordinatorModel {
    /// One turn of the coordinator's loop.
    pub open spec fn turn(self, processes: Seq<ProcessConfig>, input: CoordinatorInput, now: u64) -> (
        CoordinatorModel,
        LoopStep,
    ) {
        match input {
            CoordinatorInput::Retry(name) => {
                let (next, decision) = self.on_retry(processes, name, now);
                (next, LoopStep::Act(decision))
            },
            CoordinatorInput::Event(evt) => {
                let (next, decision) = self.on_event(processes, evt, now);
                (next, LoopStep::Act(decision))
            },
            CoordinatorInput::UpstreamClosed => (self, LoopStep::Stop),
            CoordinatorInput::RetryChannelClosed => (self, LoopStep::Idle),
            CoordinatorInput::Lagged(_) => (self, LoopStep::Idle),
        }
    }
}

impl DependencyCoordinator {
    /// One turn of the coordinator's loop: a retry wake or an event is
    /// decided on, lost events and a closed retry channel are passed over,
    /// and the loop ends when the monitors' bus has closed.
    pub fn step(&mut self, input: CoordinatorInput, config: &AppConfig, now: u64) -> (next: LoopStep)
        requires
            old(self).wf(),
        ensures
            final(self).wf(),
            (final(self)@, next) == old(self)@.turn(config.processes@, input, now),
    {
        match input {
            CoordinatorInput::Retry(name) => LoopStep::Act(self.handle_retry(name, config, now)),
            CoordinatorInput::Event(evt) => LoopStep::Act(self.decide_and_publish(evt, config, now)),
            CoordinatorInput::UpstreamClosed => LoopStep::Stop,
            CoordinatorInput::RetryChannelClosed => LoopStep::Idle,
            CoordinatorInput::Lagged(_) => LoopStep::Idle,
        }
    }
}

/// Defer idempotency. While an event of a target is held back, a further
/// failure event of that target is dropped, and the table of held-back
/// events stays as it was: no second entry, and the first deferral keeps
/// its time.
pub proof fn lemma_duplicate_failure_is_dropped(
    coordinator: CoordinatorModel,
    processes: Seq<ProcessConfig>,
    evt: ProcessEvent,
    now: u64,
)
    requires
        evt.is_failure(),
        coordinator.deferred.contains_key(evt.failed_name()),
    ensures
        coordinator.on_event(processes, evt, now).1 == Decision::Drop(DropReason::AlreadyDeferred),
        coordinator.on_event(processes, evt, now).0.deferred == coordinator.deferred,
{
}

/// Single flight, on the way in. An event is passed on at once or held back,
/// never both: where it is passed on the table of held-back events stays as
/// it was, and where it is held back it stands in the table under its
/// target, which held no event before.
pub proof fn lemma_event_is_forwarded_or_held(
    coordinator: CoordinatorModel,
    processes: Seq<ProcessConfig>,
    evt: ProcessEvent,
    now: u64,
)
    ensures
        ({
            let (next, decision) = coordinator.on_event(processes, evt, now);
            match decision {
                Decision::Forward(out) => out == evt && next.deferred == coordinator.deferred,
                Decision::Defer { name, .. } => {
                    &&& evt.is_failure()
                    &&& name@ == evt.failed_name()
                    &&& !coordinator.deferred.contains_key(name@)
                    &&& next.deferred == coordinator.deferred.insert(
                        name@,
                        next.deferred[name@],
                    )
                    &&& next.deferred[name@].original_event == evt
                },
                Decision::Drop(_) => next.deferred == coordinator.deferred,
            }
        }),
{
    let (next, decision) = coordinator.on_event(processes, evt, now);
    if decision is Defer {
        assert(next.deferred =~= coordinator.deferred.insert(
            evt.failed_name(),
            next.deferred[evt.failed_name()],
        ));
    }
}

/// Single flight, on the way out. A retry passes on only the event that was
/// held back for its target, and takes it out of the table as it does: a
/// further retry for that target passes on nothing.
pub proof fn lemma_event_is_released_once(
    coordinator: CoordinatorModel,
    processes: Seq<ProcessConfig>,
    name: String,
    now: u64,
    later_processes: Seq<ProcessConfig>,
    later: u64,
)
    ensures
        ({
            let (next, decision) = coordinator.on_retry(processes, name, now);
            decision is Forward ==> {
                &&& coordinator.deferred.contains_key(name@)
                &&& decision->Forward_0 == coordinator.deferred[name@].original_event
                &&& !next.deferred.contains_key(name@)
                &&& next.on_retry(later_processes, name, later) == (
                    next,
                    Decision::Drop(DropReason::NotDeferred),
                )
            }
        }),
{
}

/// Backoff. The first wake for an event that is held back comes after
/// `FIRST_RETRY_SECS`. A retry that finds the event still blocked asks for
/// one further wake, after the wait that the table gives for the number of
/// times the event was held back so far, never more than 30 seconds; that
/// number goes up by one, and the time of the first deferral stays.
pub proof fn lemma_blocked_retry_backs_off(
    coordinator: CoordinatorModel,
    processes: Seq<ProcessConfig>,
    evt: ProcessEvent,
    name: String,
    now: u64,
)
    ensures
        ({
            let (next, decision) = coordinator.on_event(processes, evt, now);
            decision is Defer ==> {
                &&& decision->retry_in_secs == FIRST_RETRY_SECS
                &&& next.deferred[evt.failed_name()].deferred_count == 1
                &&& next.deferred[evt.failed_name()].next_retry_at == now + FIRST_RETRY_SECS * 1000
            }
        }),
        ({
            let (next, decision) = coordinator.on_retry(processes, name, now);
            decision is Defer ==> {
                let before = coordinator.deferred[name@];
                let after = next.deferred[name@];
                &&& coordinator.deferred.contains_key(name@)
                &&& next.deferred.contains_key(name@)
                &&& decision->name == name
                &&& decision->retry_in_secs == backoff_secs(before.deferred_count)
                &&& decision->retry_in_secs <= 30
                &&& after.next_retry_at == now + decision->retry_in_secs * 1000
                &&& after.deferred_count == bumped(before.deferred_count)
                &&& after.first_deferred_at == before.first_deferred_at
                &&& after.original_event == before.original_event
            }
        }),
        backoff_secs(1) == 5 && backoff_secs(2) == 10 && backoff_secs(3) == 20,
        forall|count: u32| count >= 4 ==> #[trigger] backoff_secs(count) == 30,
{
}

/// One wake at a time. A wake is ordered exactly when a target enters the
/// table of held-back events, and when a retry leaves its target in the
/// table; a retry is the wake that was ordered for its target, used up. So
/// as long as every ordered wake comes back as one retry, a target in the
/// table has one wake to come, and a target outside it has none.
pub proof fn lemma_one_wake_per_held_target(
    coordinator: CoordinatorModel,
    processes: Seq<ProcessConfig>,
    evt: ProcessEvent,
    name: String,
    now: u64,
)
    ensures
        ({
            let (next, decision) = coordinator.on_event(processes, evt, now);
            &&& decision is Defer <==> evt.is_failure() && !coordinator.deferred.contains_key(
                evt.failed_name(),
            ) && next.deferred.contains_key(evt.failed_name())
            &&& decision is Defer ==> decision->name@ == evt.failed_name()
            &&& forall|other: Seq<char>|
                !(evt.is_failure() && other == evt.failed_name()) ==> (next.deferred.contains_key(
                    other,
                ) <==> coordinator.deferred.contains_key(other))
        }),
        ({
            let (next, decision) = coordinator.on_retry(processes, name, now);
            &&& decision is Defer <==> next.deferred.contains_key(name@)
            &&& decision is Defer ==> decision->name == name && coordinator.deferred.contains_key(
                name@,
            )
            &&& forall|other: Seq<char>|
                other != name@ ==> (next.deferred.contains_key(other)
                    <==> coordinator.deferred.contains_key(other))
        }),
{
}

/// Abort is terminal. Where a dependency that still blocks has run out of
/// time under the abort policy, the retry drops the held-back event: nothing
/// is passed on, the target leaves the table, and a further retry for it
/// passes on nothing either.
pub proof fn lemma_abort_is_terminal(
    coordinator: CoordinatorModel,
    processes: Seq<ProcessConfig>,
    name: String,
    now: u64,
    later_processes: Seq<ProcessConfig>,
    later: u64,
)
    requires
        coordinator.deferred.contains_key(name@),
        coordinator.refreshed(processes, now).aborts(name@, coordinator.deferred[name@], now),
    ensures
        ({
            let (next, decision) = coordinator.on_retry(processes, name, now);
            &&& decision == Decision::Drop(DropReason::Aborted)
            &&& next.deferred == coordinator.deferred.remove(name@)
            &&& !next.deferred.contains_key(name@)
            &&& next.on_retry(later_processes, name, later) == (
                next,
                Decision::Drop(DropReason::NotDeferred),
            )
        }),
{
}

/// A failure event marks its target as recovering for the hold time,
/// whatever is decided about the event.
pub proof fn lemma_failure_marks_recovering(
    coordinator: CoordinatorModel,
    processes: Seq<ProcessConfig>,
    evt: ProcessEvent,
    now: u64,
    at: u64,
)
    requires
        evt.is_failure(),
        now <= at < now + RECOVERING_HOLD_SECS * 1000,
    ensures
        coordinator.on_event(processes, evt, now).0.is_recovering(evt.failed_name(), at),
{
}

impl Subscriber for DependencyCoordinator {
    type Action = Decision;

    open spec fn sound(&self) -> bool {
        self.wf()
    }

    /// Takes in one event from the monitors; the same as `decide_and_publish`.
    fn handle_event(&mut self, event: ProcessEvent, config: &AppConfig, now: u64) -> (action: Decision)
        ensures
            (final(self)@, action) == old(self)@.on_event(config.processes@, event, now),
    {
        self.decide_and_publish(event, config, now)
    }
}

} // verus!
