use crate::config::{
    lemma_first_named, names_process, process_named, AppConfig, ProcessConfig, RecoveryConfig,
};
use crate::event_bus::ProcessEvent;
use crate::name_map::NameMap;
use crate::subscriber::Subscriber;
use crate::subscriber::circuit_breaker::{BreakerModel, CircuitBreakerStats};
use vstd::prelude::*;
use vstd::string::*;

verus! {

/// Under whose identity a restarted process runs.
#[derive(Debug, PartialEq, Eq)]
pub enum RunAs {
    /// The daemon's own identity, as configured.
    Daemon,
    /// The primary identity of this user, if the system knows the user.
    User(String),
    /// The daemon's own identity, for want of a user: the configuration asks
    /// for less than root and names nobody.
    Unspecified,
}

/// The numeric identity of a user.
#[derive(Debug, Clone, Copy, PartialEq, Eq)]
pub struct UserIds {
    pub uid: u32,
    pub gid: u32,
}

/// Everything needed to start a process again.
#[derive(Debug, PartialEq, Eq)]
pub struct RestartPlan {
    pub name: String,
    pub command: String,
    pub args: Vec<String>,
    /// Where the output of the process goes.
    pub log_path: String,
    /// Where it goes if `log_path` cannot be written.
    pub fallback_log_path: String,
    pub run_as: RunAs,
}

/// What the healer asks of the task that runs it.
#[derive(Debug, PartialEq, Eq)]
pub enum HealAction {
    /// The event asks for no restart.
    Ignored,
    /// The circuit breaker of the target denies the restart.
    Denied,
    /// The configuration does not know the target.
    NoConfig,
    /// Start the process.
    Restart(RestartPlan),
}

/// The file that takes the output of the restarted process `name`.
pub open spec fn log_path_of(name: Seq<char>) -> Seq<char> {
    "/var/log/healer/"@ + name + ".restarted.log"@
}

/// The file that takes it where the log directory cannot be written.
pub open spec fn fallback_log_path_of(name: Seq<char>) -> Seq<char> {
    "/tmp/healer_"@ + name + ".restarted.log"@
}

/// Under whose identity `process` is to run.
pub open spec fn run_as_of(process: ProcessConfig) -> RunAs {
    if process.run_as_root {
        RunAs::Daemon
    } else {
        match process.run_as_user {
            Some(user) => RunAs::User(user),
            None => RunAs::Unspecified,
        }
    }
}

/// Whether `plan` restarts `process` under the name `name`.
pub open spec fn restarts(plan: RestartPlan, name: String, process: ProcessConfig) -> bool {
    &&& plan.name == name
    &&& plan.command == process.command
    &&& plan.args@ == process.args@
    &&& plan.log_path@ == log_path_of(name@)
    &&& plan.fallback_log_path@ == fallback_log_path_of(name@)
    &&& plan.run_as == run_as_of(process)
}

/// The recovery policy the configuration names for `name`.
pub open spec fn policy_of(processes: Seq<ProcessConfig>, name: Seq<char>) -> Option<RecoveryConfig> {
    match process_named(processes, name) {
        Some(p) => Some(p.recovery),
        None => None,
    }
}

/// The healer as mathematics: a circuit breaker for each target it has met.
pub struct HealerModel {
    pub breakers: Map<Seq<char>, BreakerModel>,
}

impl HealerModel {
    /// The breaker of `name`; a fresh one where the healer has not met `name`.
    pub open spec fn breaker_of(self, name: Seq<char>) -> BreakerModel {
        if self.breakers.contains_key(name) {
            self.breakers[name]
        } else {
            BreakerModel::fresh()
        }
    }

    /// One request to restart `name` at `now`, put to its breaker under the
    /// policy that `processes` names: the next healer, and whether the
    /// breaker denies the restart.
    pub open spec fn check(self, processes: Seq<ProcessConfig>, name: Seq<char>, now: u64) -> (
        HealerModel,
        bool,
    ) {
        let (breaker, allow) = self.breaker_of(name).step(policy_of(processes, name), now);
        (HealerModel { breakers: self.breakers.insert(name, breaker) }, !allow)
    }

    /// Whether `action` is what a request to restart `name` at `now` comes
    /// to: a denial where the breaker denies it, a restart of the process as
    /// `processes` describe it where the breaker allows it, and nothing where
    /// the breaker allows it and `processes` do not know `name`.
    pub open spec fn answers(
        self,
        processes: Seq<ProcessConfig>,
        name: String,
        now: u64,
        action: HealAction,
    ) -> bool {
        let tripped = self.check(processes, name@, now).1;
        match action {
            HealAction::Denied => tripped,
            HealAction::NoConfig => !tripped && process_named(processes, name@) is None,
            HealAction::Restart(plan) => !tripped && process_named(processes, name@) is Some
                && restarts(plan, name, process_named(processes, name@)->0),
            HealAction::Ignored => false,
        }
    }

    /// A healer with a fresh breaker for every process of `processes`.
    pub open spec fn for_processes(processes: Seq<ProcessConfig>) -> HealerModel {
        HealerModel {
            breakers: Map::new(
                |name: Seq<char>| names_process(processes, name),
                |name: Seq<char>| BreakerModel::fresh(),
            ),
        }
    }
}

/// Decides, for each failure that reaches it, whether the process is
/// started again, and how.
pub struct ProcessHealer {
    process_recovery_windows: NameMap<CircuitBreakerStats>,
}

impl View for ProcessHealer {
    type V = HealerModel;

    closed spec fn view(&self) -> HealerModel {
        HealerModel {
            breakers: self.process_recovery_windows@.map_values(|s: CircuitBreakerStats| s@),
        }
    }
}

/// The identity a restarted process gets: that of the user it was to run as,
/// where the system knows the user; the daemon's own in every other case.
pub fn spawn_identity(run_as: &RunAs, found: Option<UserIds>) -> (ids: Option<UserIds>)
    ensures
        ids == match run_as {
            RunAs::User(_) => found,
            _ => None,
        },
{
    match run_as {
        RunAs::User(_) => found,
        _ => None,
    }
}

/// Everything needed to start `process` again under the name `name`.
pub fn plan_restart(name: &String, process: &ProcessConfig) -> (plan: RestartPlan)
    ensures
        restarts(plan, *name, *process),
{
    let mut log_path = "/var/log/healer/".to_owned();
    log_path.append(name.as_str());
    log_path.append(".restarted.log");
    let mut fallback_log_path = "/tmp/healer_".to_owned();
    fallback_log_path.append(name.as_str());
    fallback_log_path.append(".restarted.log");
    let run_as = if process.run_as_root {
        RunAs::Daemon
    } else {
        match &process.run_as_user {
            Some(user) => RunAs::User(user.clone()),
            None => RunAs::Unspecified,
        }
    };
    RestartPlan {
        name: name.clone(),
        command: process.command.clone(),
        args: process.args.clone(),
        log_path,
        fallback_log_path,
        run_as,
    }
}

impl ProcessHealer {
    /// The table of breakers is sound: no name twice.
    pub closed spec fn wf(&self) -> bool {
        self.process_recovery_windows.wf()
    }

    /// A healer with a fresh breaker for every process of `config`.
    pub fn new(config: &AppConfig) -> (r: Self)
        ensures
            r.wf(),
            r@ == HealerModel::for_processes(config.processes@),
    {
        let mut table: NameMap<CircuitBreakerStats> = NameMap::new();
        let mut i: usize = 0;
        while i < config.processes.len()
            invariant
                table.wf(),
                i <= config.processes.len(),
                forall|name: Seq<char>| #[trigger]
                    table@.contains_key(name) <==> names_process(
                        config.processes@.take(i as int),
                        name,
                    ),
                forall|name: Seq<char>| #[trigger]
                    table@.contains_key(name) ==> table@[name]@ == BreakerModel::fresh(),
            decreases config.processes.len() - i,
        {
            let ghost seen = config.processes@.take(i as int);
            let ghost next = config.processes@.take(i + 1);
            let ghost before = table@;
            table.insert(config.processes[i].name.clone(), CircuitBreakerStats::new());
            proof {
                let added = config.processes@[i as int].name@;
                assert forall|name: Seq<char>| #[trigger]
                    table@.contains_key(name) <==> names_process(next, name) by {
                    if table@.contains_key(name) {
                        if name == added {
                            assert(next[i as int].name@ == name);
                        } else {
                            assert(before.contains_key(name));
                            let j = choose|j: int| 0 <= j < seen.len() && #[trigger] seen[j].name@ == name;
                            assert(next[j].name@ == name);
                        }
                    }
                    if names_process(next, name) {
                        let j = choose|j: int| 0 <= j < next.len() && #[trigger] next[j].name@ == name;
                        if j < i {
                            assert(seen[j].name@ == name);
                        }
                    }
                }
            }
            i += 1;
        }
        let r = ProcessHealer { process_recovery_windows: table };
        proof {
            assert(config.processes@.take(i as int) =~= config.processes@);
            assert(r@.breakers =~= HealerModel::for_processes(config.processes@).breakers);
        }
        r
    }

    /// The circuit breaker of `name`, if the healer has met `name`.
    pub fn breaker(&self, name: &str) -> (r: Option<&CircuitBreakerStats>)
        requires
            self.wf(),
        ensures
            match r {
                Some(stats) => self@.breakers.contains_key(name@) && stats@ == self@.breakers[name@],
                None => !self@.breakers.contains_key(name@),
            },
    {
        self.process_recovery_windows.get(name)
    }

    /// Puts one request to restart `name` at `now` to its circuit breaker,
    /// under the policy that `config` names for it. A target that the healer
    /// has not met gets a fresh breaker first. Returns whether the breaker
    /// denies the restart.
    pub fn check_circuit_breaker(&mut self, name: &String, config: &AppConfig, now: u64) -> (tripped:
        bool)
        requires
            old(self).wf(),
        ensures
            final(self).wf(),
            (final(self)@, tripped) == old(self)@.check(config.processes@, name@, now),
    {
        let policy: Option<RecoveryConfig> = match config.find_process(name.as_str()) {
            Some(at) => {
                proof {
                    lemma_first_named(
                        config.processes@,
                        name@,
                        at as int,
                    );
                }
                Some(config.processes[at].recovery)
            },
            None => None,
        };
        let ghost before = self.process_recovery_windows@;
        let mut stats = match self.process_recovery_windows.remove(name.as_str()) {
            Some(stats) => stats,
            None => CircuitBreakerStats::new(),
        };
        let allow = stats.decide(policy, now);
        self.process_recovery_windows.insert(name.clone(), stats);
        proof {
            assert(self@.breakers =~= before.map_values(|s: CircuitBreakerStats| s@).insert(
                name@,
                stats@,
            ));
        }
        !allow
    }

    /// What becomes of a request to restart `name` at `now` under the
    /// configuration `config`: nothing where the breaker denies it or the
    /// configuration does not know `name`, and a restart of the process as
    /// configured otherwise.
    pub fn heal_process(&mut self, name: &String, config: &AppConfig, now: u64) -> (action: HealAction)
        requires
            old(self).wf(),
        ensures
            final(self).wf(),
            final(self)@ == old(self)@.check(config.processes@, name@, now).0,
            old(self)@.answers(config.processes@, *name, now, action),
    {
        if self.check_circuit_breaker(name, config, now) {
            return HealAction::Denied;
        }
        match config.find_process(name.as_str()) {
            Some(at) => {
                proof {
                    lemma_first_named(
                        config.processes@,
                        name@,
                        at as int,
                    );
                }
                HealAction::Restart(plan_restart(name, &config.processes[at]))
            },
            None => HealAction::NoConfig,
        }
    }

}

impl Subscriber for ProcessHealer {
    type Action = HealAction;

    open spec fn sound(&self) -> bool {
        self.wf()
    }

    /// Takes in one event from the coordinator at `now`: a failure asks for
    /// a restart of its process, any other event for nothing.
    fn handle_event(&mut self, event: ProcessEvent, config: &AppConfig, now: u64) -> (action:
        HealAction)
        ensures
            !event.is_failure() ==> action is Ignored && final(self)@ == old(self)@,
            event.is_failure() ==> final(self)@ == old(self)@.check(
                config.processes@,
                event.failed_name(),
                now,
            ).0 && old(self)@.answers(config.processes@, event.failed_string(), now, action),
    {
        match event.failed_process() {
            Some(name) => self.heal_process(name, config, now),
            None => HealAction::Ignored,
        }
    }
}

/// What the task that runs the healer hands it, one at a time.
#[derive(Debug)]
pub enum HealerInput {
    /// An event from the coordinator.
    Event(ProcessEvent),
    /// The healer fell behind and missed this many events.
    Lagged(u64),
    /// The coordinator's bus has closed.
    Closed,
}

/// What the task does after one input.
#[derive(Debug, PartialEq, Eq)]
pub enum HealerStep {
    /// Carry out the action, then wait for the next input.
    Act(HealAction),
    /// Wait for the next input.
    Idle,
    /// Leave the loop.
    Stop,
}

impl ProcessHealer {
    /// One turn of the healer's loop: an event is acted on, lost events are
    /// passed over, and the loop ends when the coordinator's bus has closed.
    pub fn step(&mut self, input: HealerInput, config: &AppConfig, now: u64) -> (next: HealerStep)
        requires
            old(self).wf(),
        ensures
            final(self).wf(),
            match input {
                HealerInput::Event(event) => {
                    &&& next is Act
                    &&& !event.is_failure() ==> next->Act_0 is Ignored && final(self)@ == old(self)@
                    &&& event.is_failure() ==> final(self)@ == old(self)@.check(
                        config.processes@,
                        event.failed_name(),
                        now,
                    ).0 && old(self)@.answers(
                        config.processes@,
                        event.failed_string(),
                        now,
                        next->Act_0,
                    )
                },
                HealerInput::Lagged(_) => next is Idle && final(self)@ == old(self)@,
                HealerInput::Closed => next is Stop && final(self)@ == old(self)@,
            },
    {
        match input {
            HealerInput::Event(event) => HealerStep::Act(self.handle_event(event, config, now)),
            HealerInput::Lagged(_) => HealerStep::Idle,
            HealerInput::Closed => HealerStep::Stop,
        }
    }
}

} // verus!
