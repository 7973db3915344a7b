use crate::config::{
    EbpfMonitorConfig, MonitorConfig, NetworkMonitorConfig, PidMonitorConfig, ProcessConfig,
};
use crate::text::{holds_name, name_set, str_eq};
use crate::monitor::ebpf_monitor::{comm_key, watch_key};
use crate::utils::{extract_executable_name, truncate_process_name};
use vstd::prelude::*;
use vstd::string::*;

pub mod convergence;

verus! {

/// How long a stopped monitor is given to wind down, in milliseconds.
pub const STOP_DRAIN_MS: u64 = 100;

/// How long a shutdown waits for each monitor task.
pub const SHUTDOWN_DRAIN_SECS: u64 = 2;

/// One step of a reconciliation, for the task that owns the monitors and the
/// kernel's watch list to carry out.
#[derive(Debug, PartialEq, Eq)]
pub enum MonitorOp {
    /// Take the executable out of the kernel's watch list.
    Unwatch(EbpfMonitorConfig),
    /// Put the executable into the kernel's watch list.
    Watch(EbpfMonitorConfig),
    /// Stop the monitor task of this process.
    Stop(String),
    /// Start a PID monitor.
    StartPid(PidMonitorConfig),
    /// Start a network monitor.
    StartNetwork(NetworkMonitorConfig),
    /// Shut the exit-tracepoint monitor down.
    ShutdownEbpf,
}

/// An executable in the kernel's watch list, as the manager remembers it.
#[derive(Debug, PartialEq, Eq)]
pub struct WatchedExecutable {
    /// The key it has in the kernel's list.
    pub key: [u8; 16],
    pub config: EbpfMonitorConfig,
}

/// The key that a watch has in the kernel's list.
pub open spec fn key_of(watch: EbpfMonitorConfig) -> Seq<u8> {
    watch_key(watch.command@)
}

/// Two watches are the same to the kernel and to the reader of its events:
/// same key, same configured name.
pub open spec fn same_watch(a: EbpfMonitorConfig, b: EbpfMonitorConfig) -> bool {
    key_of(a) == key_of(b) && a.name@ == b.name@
}

/// Whether `list` holds a watch that is the same as `watch`.
pub open spec fn holds_watch(list: Seq<EbpfMonitorConfig>, watch: EbpfMonitorConfig) -> bool {
    exists|i: int| 0 <= i < list.len() && same_watch(#[trigger] list[i], watch)
}

/// Whether `list` holds a watch with the key `key`.
pub open spec fn holds_key(list: Seq<EbpfMonitorConfig>, key: Seq<u8>) -> bool {
    exists|i: int| 0 <= i < list.len() && key_of(#[trigger] list[i]) == key
}

/// The keys of the watches in `list`.
pub open spec fn keys_of(list: Seq<EbpfMonitorConfig>) -> Set<Seq<u8>> {
    Set::new(|key: Seq<u8>| holds_key(list, key))
}

/// No two watches of `list` share a key.
pub open spec fn distinct_keys(list: Seq<EbpfMonitorConfig>) -> bool {
    forall|i: int, j: int|
        #![trigger list[i], list[j]]
        0 <= i < j < list.len() ==> key_of(list[i]) != key_of(list[j])
}

/// No two names of `names` are the same.
pub open spec fn distinct_strings(names: Seq<String>) -> bool {
    forall|i: int, j: int|
        #![trigger names[i], names[j]]
        0 <= i < j < names.len() ==> names[i]@ != names[j]@
}

/// Whether the exit tracepoint is to watch `process`.
pub open spec fn wants_watch(process: ProcessConfig) -> bool {
    process.enabled && process.monitor is Ebpf
}

/// Whether a monitor task is to watch `process`.
pub open spec fn wants_task(process: ProcessConfig) -> bool {
    process.enabled && !(process.monitor is Ebpf)
}

/// The watch that `process` asks for.
pub open spec fn watch_of(process: ProcessConfig) -> EbpfMonitorConfig {
    EbpfMonitorConfig { name: process.name, command: process.command }
}

/// The watches that `processes` ask for, in their order. Where two
/// executables have the same key, the first stands for both.
pub open spec fn desired_watches(processes: Seq<ProcessConfig>) -> Seq<EbpfMonitorConfig>
    decreases processes.len(),
{
    if processes.len() == 0 {
        Seq::empty()
    } else {
        let before = desired_watches(processes.drop_last());
        let process = processes.last();
        if wants_watch(process) && !holds_key(before, key_of(watch_of(process))) {
            before.push(watch_of(process))
        } else {
            before
        }
    }
}

/// The set that the kernel's watch list is to be: the keys of the
/// executables of all enabled processes that the exit tracepoint watches.
pub open spec fn desired_keys(processes: Seq<ProcessConfig>) -> Set<Seq<u8>> {
    Set::new(
        |key: Seq<u8>|
            exists|i: int|
                0 <= i < processes.len() && wants_watch(#[trigger] processes[i]) && watch_key(
                    processes[i].command@,
                ) == key,
    )
}

/// Whether `list` holds a process called `name`.
pub open spec fn holds_process(list: Seq<ProcessConfig>, name: Seq<char>) -> bool {
    exists|i: int| 0 <= i < list.len() && #[trigger] list[i].name@ == name
}

/// The processes that ask for a monitor task, in their order. Where two
/// share a name, the first stands for both.
pub open spec fn desired_tasks(processes: Seq<ProcessConfig>) -> Seq<ProcessConfig>
    decreases processes.len(),
{
    if processes.len() == 0 {
        Seq::empty()
    } else {
        let before = desired_tasks(processes.drop_last());
        let process = processes.last();
        if wants_task(process) && !holds_process(before, process.name@) {
            before.push(process)
        } else {
            before
        }
    }
}

/// The step that starts the monitor task of `process`.
pub open spec fn start_of(process: ProcessConfig) -> MonitorOp {
    match process.monitor {
        MonitorConfig::Pid(f) => MonitorOp::StartPid(
            PidMonitorConfig {
                name: process.name,
                pid_file_path: f.pid_file_path,
                interval_secs: f.interval_secs,
            },
        ),
        MonitorConfig::Network(f) => MonitorOp::StartNetwork(
            NetworkMonitorConfig {
                name: process.name,
                target_url: f.target_url,
                interval_secs: f.interval_secs,
            },
        ),
        MonitorConfig::Ebpf(_) => MonitorOp::Watch(watch_of(process)),
    }
}

/// The name of a process.
pub open spec fn name_of(process: ProcessConfig) -> String {
    process.name
}

/// The step that takes `watch` out of the kernel's list.
pub open spec fn unwatch_of(watch: EbpfMonitorConfig) -> MonitorOp {
    MonitorOp::Unwatch(watch)
}

/// The step that puts `watch` into the kernel's list.
pub open spec fn watch_op_of(watch: EbpfMonitorConfig) -> MonitorOp {
    MonitorOp::Watch(watch)
}

/// A step that takes each watch of `list` out of the kernel's list.
pub open spec fn unwatch_steps(list: Seq<EbpfMonitorConfig>) -> Seq<MonitorOp> {
    list.map_values(|watch: EbpfMonitorConfig| unwatch_of(watch))
}

/// A step that puts each watch of `list` into the kernel's list.
pub open spec fn watch_steps(list: Seq<EbpfMonitorConfig>) -> Seq<MonitorOp> {
    list.map_values(|watch: EbpfMonitorConfig| watch_op_of(watch))
}

/// The step that stops the monitor task of `name`.
pub open spec fn stop_of(name: String) -> MonitorOp {
    MonitorOp::Stop(name)
}

/// The watches of `list` that `other` does not hold.
pub open spec fn missing_from(other: Seq<EbpfMonitorConfig>) -> spec_fn(EbpfMonitorConfig) -> bool {
    |watch: EbpfMonitorConfig| !holds_watch(other, watch)
}

/// Whether a watch has another key than `key`.
pub open spec fn other_key(key: Seq<u8>) -> spec_fn(EbpfMonitorConfig) -> bool {
    |watch: EbpfMonitorConfig| key_of(watch) != key
}

/// Whether none of `tasks` is called `name`.
pub open spec fn not_desired(tasks: Seq<ProcessConfig>) -> spec_fn(String) -> bool {
    |name: String| !holds_process(tasks, name@)
}

/// Whether one of `tasks` is called `name`.
pub open spec fn is_desired(tasks: Seq<ProcessConfig>) -> spec_fn(String) -> bool {
    |name: String| holds_process(tasks, name@)
}

/// Whether a process has no monitor task among `running`.
pub open spec fn not_running(running: Seq<String>) -> spec_fn(ProcessConfig) -> bool {
    |process: ProcessConfig| !name_set(running).contains(process.name@)
}

/// Whether a monitor task is to be started for a process: it has none among
/// `running`, or the one it has is among `finished`.
pub open spec fn needs_start(running: Seq<String>, finished: Seq<String>) -> spec_fn(
    ProcessConfig,
) -> bool {
    |process: ProcessConfig|
        !name_set(running).contains(process.name@) || name_set(finished).contains(process.name@)
}

/// The manager as mathematics.
pub struct ManagerModel {
    /// Whether there is an exit-tracepoint monitor to talk to.
    pub ebpf_available: bool,
    /// What the manager knows to be in the kernel's watch list.
    pub watched: Seq<EbpfMonitorConfig>,
    /// The processes that have a monitor task.
    pub running: Seq<String>,
}

impl ManagerModel {
    /// No key twice in the watch list, no name twice among the monitor tasks.
    pub open spec fn wf(self) -> bool {
        distinct_keys(self.watched) && distinct_strings(self.running)
    }

    /// The steps that bring the kernel's watch list to what `processes` ask
    /// for: first the watches to take out, then those to put in.
    pub open spec fn watch_plan(self, processes: Seq<ProcessConfig>) -> Seq<MonitorOp> {
        if self.ebpf_available {
            let desired = desired_watches(processes);
            unwatch_steps(self.watched.filter(missing_from(desired))) + watch_steps(
                desired.filter(missing_from(self.watched)),
            )
        } else {
            Seq::empty()
        }
    }

    /// The steps that bring the monitor tasks to what `processes` ask for:
    /// first the tasks to stop, then those to start. A task that has
    /// finished by itself is started again.
    pub open spec fn task_plan(self, processes: Seq<ProcessConfig>, finished: Seq<String>) -> Seq<
        MonitorOp,
    > {
        let tasks = desired_tasks(processes);
        self.running.filter(not_desired(tasks)).map_values(|name: String| stop_of(name))
            + tasks.filter(needs_start(self.running, finished)).map_values(
            |process: ProcessConfig| start_of(process),
        )
    }

    /// All steps of a reconciliation, in the order to carry them out.
    pub open spec fn plan(self, processes: Seq<ProcessConfig>, finished: Seq<String>) -> Seq<MonitorOp> {
        self.watch_plan(processes) + self.task_plan(processes, finished)
    }

    /// The manager after it has planned a reconciliation: the monitor tasks
    /// are what `processes` ask for, and the watch list is as it was, until
    /// the outcome of each step on it is known.
    pub open spec fn reconciled(self, processes: Seq<ProcessConfig>) -> ManagerModel {
        let tasks = desired_tasks(processes);
        ManagerModel {
            running: self.running.filter(is_desired(tasks)) + tasks.filter(
                not_running(self.running),
            ).map_values(|process: ProcessConfig| name_of(process)),
            ..self
        }
    }

    /// The manager after the outcome of one step is known. A step on the
    /// watch list that succeeded is taken over; one that failed, and any
    /// other step, changes nothing.
    pub open spec fn recorded(self, op: MonitorOp, succeeded: bool) -> ManagerModel {
        match op {
            MonitorOp::Unwatch(watch) if succeeded => ManagerModel {
                watched: self.watched.filter(other_key(key_of(watch))),
                ..self
            },
            MonitorOp::Watch(watch) if succeeded => ManagerModel {
                watched: self.watched.filter(other_key(key_of(watch))).push(watch),
                ..self
            },
            _ => self,
        }
    }

    /// The steps of a shutdown: stop every monitor task, then shut the
    /// exit-tracepoint monitor down, if there is one.
    pub open spec fn shutdown_plan(self) -> Seq<MonitorOp> {
        let stops = self.running.map_values(|name: String| stop_of(name));
        if self.ebpf_available {
            stops.push(MonitorOp::ShutdownEbpf)
        } else {
            stops
        }
    }
}

/// What a step does to the kernel's watch list when it succeeds.
pub open spec fn kernel_after(kernel: Set<Seq<u8>>, op: MonitorOp, succeeded: bool) -> Set<Seq<u8>> {
    match op {
        MonitorOp::Unwatch(watch) if succeeded => kernel.remove(key_of(watch)),
        MonitorOp::Watch(watch) if succeeded => kernel.insert(key_of(watch)),
        _ => kernel,
    }
}

/// The watches that a list of remembered executables stands for.
pub open spec fn watches_of(list: Seq<WatchedExecutable>) -> Seq<EbpfMonitorConfig> {
    list.map_values(|entry: WatchedExecutable| entry.config)
}

/// Every remembered executable carries the key of its watch.
pub open spec fn keys_cached(list: Seq<WatchedExecutable>) -> bool {
    forall|i: int| 0 <= i < list.len() ==> (#[trigger] list[i]).key@ == key_of(list[i].config)
}

/// Whether two keys are the same.
pub fn keys_equal(a: &[u8; 16], b: &[u8; 16]) -> (same: bool)
    ensures
        same == (a@ == b@),
{
    let mut i: usize = 0;
    while i < 16
        invariant
            i <= 16,
            forall|j: int| 0 <= j < i ==> a@[j] == b@[j],
        decreases 16 - i,
    {
        if a[i] != b[i] {
            return false;
        }
        i += 1;
    }
    proof {
        assert(a@ =~= b@);
    }
    true
}

/// The key that the executable of `command` has in the kernel's list.
pub fn key_for(command: &str) -> (key: [u8; 16])
    ensures
        key@ == watch_key(command@),
{
    let executable_name = extract_executable_name(command);
    let truncated_name = truncate_process_name(executable_name.as_str());
    comm_key(truncated_name.as_str())
}

/// Whether `list` holds a watch with the key `key`.
pub fn has_key(list: &Vec<WatchedExecutable>, key: &[u8; 16]) -> (found: bool)
    requires
        keys_cached(list@),
    ensures
        found == holds_key(watches_of(list@), key@),
{
    let mut i: usize = 0;
    while i < list.len()
        invariant
            keys_cached(list@),
            i <= list.len(),
            forall|j: int| 0 <= j < i ==> key_of(#[trigger] watches_of(list@)[j]) != key@,
        decreases list.len() - i,
    {
        if keys_equal(&list[i].key, key) {
            proof {
                assert(key_of(watches_of(list@)[i as int]) == key@);
            }
            return true;
        }
        i += 1;
    }
    false
}

/// Whether `list` holds a watch that is the same as `watch`.
pub fn has_watch(list: &Vec<WatchedExecutable>, watch: &WatchedExecutable) -> (found: bool)
    requires
        keys_cached(list@),
        watch.key@ == key_of(watch.config),
    ensures
        found == holds_watch(watches_of(list@), watch.config),
{
    let mut i: usize = 0;
    while i < list.len()
        invariant
            keys_cached(list@),
            watch.key@ == key_of(watch.config),
            i <= list.len(),
            forall|j: int| 0 <= j < i ==> !same_watch(#[trigger] watches_of(list@)[j], watch.config),
        decreases list.len() - i,
    {
        if keys_equal(&list[i].key, &watch.key) && str_eq(
            list[i].config.name.as_str(),
            watch.config.name.as_str(),
        ) {
            proof {
                assert(same_watch(watches_of(list@)[i as int], watch.config));
            }
            return true;
        }
        i += 1;
    }
    false
}

/// Whether `tasks` holds a process called `name`.
pub fn has_process(tasks: &Vec<&ProcessConfig>, name: &str) -> (found: bool)
    ensures
        found == holds_process(processes_of(tasks@), name@),
{
    let mut i: usize = 0;
    while i < tasks.len()
        invariant
            i <= tasks.len(),
            forall|j: int| 0 <= j < i ==> (#[trigger] processes_of(tasks@)[j]).name@ != name@,
        decreases tasks.len() - i,
    {
        if str_eq(tasks[i].name.as_str(), name) {
            proof {
                assert(processes_of(tasks@)[i as int].name@ == name@);
            }
            return true;
        }
        i += 1;
    }
    false
}

/// The processes that a list of borrowed processes stands for.
pub open spec fn processes_of(list: Seq<&ProcessConfig>) -> Seq<ProcessConfig> {
    list.map_values(|process: &ProcessConfig| *process)
}

/// The watches that `processes` ask for, each with its key.
pub fn collect_watches(processes: &Vec<ProcessConfig>) -> (desired: Vec<WatchedExecutable>)
    ensures
        keys_cached(desired@),
        watches_of(desired@) == desired_watches(processes@),
{
    let mut desired: Vec<WatchedExecutable> = Vec::new();
    let mut i: usize = 0;
    proof {
        assert(processes@.take(0) =~= Seq::<ProcessConfig>::empty());
        assert(watches_of(desired@) =~= Seq::<EbpfMonitorConfig>::empty());
    }
    while i < processes.len()
        invariant
            i <= processes.len(),
            keys_cached(desired@),
            watches_of(desired@) == desired_watches(processes@.take(i as int)),
        decreases processes.len() - i,
    {
        let process = &processes[i];
        let ghost before = desired@;
        proof {
            assert(processes@.take(i + 1).drop_last() =~= processes@.take(i as int));
            assert(processes@.take(i + 1).last() == *process);
        }
        if process.enabled {
            match process.get_ebpf_monitor_config() {
                Some(config) => {
                    let key = key_for(config.command.as_str());
                    if !has_key(&desired, &key) {
                        desired.push(WatchedExecutable { key, config });
                        proof {
                            assert(watches_of(desired@) =~= watches_of(before).push(config));
                        }
                    }
                },
                None => {},
            }
        }
        i += 1;
    }
    proof {
        assert(processes@.take(i as int) =~= processes@);
    }
    desired
}

/// The processes of `processes` that ask for a monitor task.
pub fn collect_tasks(processes: &Vec<ProcessConfig>) -> (tasks: Vec<&ProcessConfig>)
    ensures
        processes_of(tasks@) == desired_tasks(processes@),
{
    let mut tasks: Vec<&ProcessConfig> = Vec::new();
    let mut i: usize = 0;
    proof {
        assert(processes@.take(0) =~= Seq::<ProcessConfig>::empty());
        assert(processes_of(tasks@) =~= Seq::<ProcessConfig>::empty());
    }
    while i < processes.len()
        invariant
            i <= processes.len(),
            processes_of(tasks@) == desired_tasks(processes@.take(i as int)),
        decreases processes.len() - i,
    {
        let process = &processes[i];
        let ghost before = tasks@;
        proof {
            assert(processes@.take(i + 1).drop_last() =~= processes@.take(i as int));
            assert(processes@.take(i + 1).last() == *process);
        }
        let is_ebpf = match process.monitor {
            MonitorConfig::Ebpf(_) => true,
            _ => false,
        };
        if process.enabled && !is_ebpf && !has_process(&tasks, process.name.as_str()) {
            tasks.push(process);
            proof {
                assert(processes_of(tasks@) =~= processes_of(before).push(*process));
            }
        }
        i += 1;
    }
    proof {
        assert(processes@.take(i as int) =~= processes@);
    }
    tasks
}

/// A list without a key twice keeps that property when watches are taken out.
pub proof fn lemma_filter_keeps_distinct_keys(
    list: Seq<EbpfMonitorConfig>,
    pred: spec_fn(EbpfMonitorConfig) -> bool,
)
    requires
        distinct_keys(list),
    ensures
        distinct_keys(list.filter(pred)),
    decreases list.len(),
{
    reveal(Seq::filter);
    if list.len() > 0 {
        let rest = list.drop_last();
        let kept = rest.filter(pred);
        assert forall|i: int, j: int| 0 <= i < j < rest.len() implies key_of(rest[i]) != key_of(
            rest[j],
        ) by {
            assert(rest[i] == list[i] && rest[j] == list[j]);
        }
        lemma_filter_keeps_distinct_keys(rest, pred);
        if pred(list.last()) {
            let out = kept.push(list.last());
            assert forall|i: int, j: int| 0 <= i < j < out.len() implies key_of(out[i]) != key_of(
                out[j],
            ) by {
                if j < kept.len() {
                    assert(out[i] == kept[i] && out[j] == kept[j]);
                } else {
                    assert(kept.contains(kept[i]));
                    rest.lemma_filter_contains_rev(pred, kept[i]);
                    let k = choose|k: int| 0 <= k < rest.len() && rest[k] == kept[i];
                    assert(list[k] == kept[i]);
                    assert(key_of(list[k]) != key_of(list[list.len() - 1]));
                }
            }
        }
    }
}

proof fn lemma_filter_keeps_distinct_strings(names: Seq<String>, pred: spec_fn(String) -> bool)
    requires
        distinct_strings(names),
    ensures
        distinct_strings(names.filter(pred)),
    decreases names.len(),
{
    reveal(Seq::filter);
    if names.len() > 0 {
        let rest = names.drop_last();
        let kept = rest.filter(pred);
        assert forall|i: int, j: int| 0 <= i < j < rest.len() implies rest[i]@ != rest[j]@ by {
            assert(rest[i] == names[i] && rest[j] == names[j]);
        }
        lemma_filter_keeps_distinct_strings(rest, pred);
        if pred(names.last()) {
            let out = kept.push(names.last());
            assert forall|i: int, j: int| 0 <= i < j < out.len() implies out[i]@ != out[j]@ by {
                if j < kept.len() {
                    assert(out[i] == kept[i] && out[j] == kept[j]);
                } else {
                    assert(kept.contains(kept[i]));
                    rest.lemma_filter_contains_rev(pred, kept[i]);
                    let k = choose|k: int| 0 <= k < rest.len() && rest[k] == kept[i];
                    assert(names[k] == kept[i]);
                    assert(names[k]@ != names[names.len() - 1]@);
                }
            }
        }
    }
}

/// The processes that ask for a monitor task carry no name twice, and each
/// of them asks for one.
pub proof fn lemma_desired_tasks(processes: Seq<ProcessConfig>)
    ensures
        forall|i: int, j: int|
            #![trigger desired_tasks(processes)[i], desired_tasks(processes)[j]]
            0 <= i < j < desired_tasks(processes).len() ==> desired_tasks(processes)[i].name@
                != desired_tasks(processes)[j].name@,
        forall|i: int|
            0 <= i < desired_tasks(processes).len() ==> wants_task(
                #[trigger] desired_tasks(processes)[i],
            ),
        forall|i: int|
            0 <= i < processes.len() && wants_task(#[trigger] processes[i]) ==> holds_process(
                desired_tasks(processes),
                processes[i].name@,
            ),
        forall|i: int|
            0 <= i < desired_tasks(processes).len() ==> processes.contains(
                #[trigger] desired_tasks(processes)[i],
            ),
    decreases processes.len(),
{
    if processes.len() > 0 {
        let rest = processes.drop_last();
        lemma_desired_tasks(rest);
        let before = desired_tasks(rest);
        let after = desired_tasks(processes);
        assert forall|i: int| 0 <= i < before.len() implies after[i] == before[i] by {}
        assert forall|i: int| 0 <= i < after.len() implies processes.contains(
            #[trigger] after[i],
        ) by {
            if i < before.len() {
                assert(rest.contains(before[i]));
                let j = choose|j: int| 0 <= j < rest.len() && rest[j] == before[i];
                assert(processes[j] == after[i]);
            } else {
                assert(processes[processes.len() - 1] == after[i]);
            }
        }
        assert forall|i: int| 0 <= i < processes.len() && wants_task(
            #[trigger] processes[i],
        ) implies holds_process(after, processes[i].name@) by {
            if i < rest.len() {
                assert(rest[i] == processes[i]);
                let k = choose|k: int| 0 <= k < before.len() && #[trigger] before[k].name@ == rest[i].name@;
                assert(after[k].name@ == processes[i].name@);
            } else {
                if holds_process(before, processes[i].name@) {
                    let k = choose|k: int| 0 <= k < before.len() && #[trigger] before[k].name@ == processes[i].name@;
                    assert(after[k].name@ == processes[i].name@);
                } else {
                    assert(after[before.len() as int].name@ == processes[i].name@);
                }
            }
        }
    }
}

/// A reconciliation leaves the manager sound.
pub proof fn lemma_reconciled_wf(manager: ManagerModel, processes: Seq<ProcessConfig>)
    requires
        manager.wf(),
    ensures
        manager.reconciled(processes).wf(),
{
    let tasks = desired_tasks(processes);
    let kept = manager.running.filter(is_desired(tasks));
    let fresh = tasks.filter(not_running(manager.running));
    let started = fresh.map_values(|process: ProcessConfig| name_of(process));
    let out = kept + started;
    lemma_filter_keeps_distinct_strings(manager.running, is_desired(tasks));
    lemma_desired_tasks(processes);
    lemma_filter_keeps_task_names(tasks, not_running(manager.running));
    assert forall|i: int, j: int| 0 <= i < j < out.len() implies out[i]@ != out[j]@ by {
        if j < kept.len() {
            assert(out[i] == kept[i] && out[j] == kept[j]);
        } else if i >= kept.len() {
            assert(out[i] == fresh[i - kept.len()].name);
            assert(out[j] == fresh[j - kept.len()].name);
        } else {
            assert(out[i] == kept[i]);
            assert(out[j] == fresh[j - kept.len()].name);
            assert(kept.contains(kept[i]));
            manager.running.lemma_filter_contains_rev(is_desired(tasks), kept[i]);
            let k = choose|k: int| 0 <= k < manager.running.len() && manager.running[k] == kept[i];
            assert(manager.running[k]@ == kept[i]@);
            assert(name_set(manager.running).contains(kept[i]@));
            tasks.lemma_filter_pred(not_running(manager.running), j - kept.len());
            assert(not_running(manager.running)(fresh[j - kept.len()]));
        }
    }
}

proof fn lemma_filter_keeps_task_names(tasks: Seq<ProcessConfig>, pred: spec_fn(ProcessConfig) -> bool)
    requires
        forall|i: int, j: int|
            #![trigger tasks[i], tasks[j]]
            0 <= i < j < tasks.len() ==> tasks[i].name@ != tasks[j].name@,
    ensures
        forall|i: int, j: int|
            #![trigger tasks.filter(pred)[i], tasks.filter(pred)[j]]
            0 <= i < j < tasks.filter(pred).len() ==> tasks.filter(pred)[i].name@ != tasks.filter(
                pred,
            )[j].name@,
    decreases tasks.len(),
{
    reveal(Seq::filter);
    if tasks.len() > 0 {
        let rest = tasks.drop_last();
        let kept = rest.filter(pred);
        assert forall|i: int, j: int| 0 <= i < j < rest.len() implies rest[i].name@ != rest[j].name@ by {
            assert(rest[i] == tasks[i] && rest[j] == tasks[j]);
        }
        lemma_filter_keeps_task_names(rest, pred);
        if pred(tasks.last()) {
            let out = kept.push(tasks.last());
            assert forall|i: int, j: int| 0 <= i < j < out.len() implies out[i].name@
                != out[j].name@ by {
                if j < kept.len() {
                    assert(out[i] == kept[i] && out[j] == kept[j]);
                } else {
                    assert(kept.contains(kept[i]));
                    rest.lemma_filter_contains_rev(pred, kept[i]);
                    let k = choose|k: int| 0 <= k < rest.len() && rest[k] == kept[i];
                    assert(tasks[k] == kept[i]);
                    assert(tasks[k].name@ != tasks[tasks.len() - 1].name@);
                }
            }
        }
    }
}

/// Keeps the monitors and the kernel's watch list in step with the
/// configuration.
pub struct MonitorManager {
    ebpf_available: bool,
    watched_ebpf_configs: Vec<WatchedExecutable>,
    running_monitors: Vec<String>,
}

impl View for MonitorManager {
    type V = ManagerModel;

    closed spec fn view(&self) -> ManagerModel {
        ManagerModel {
            ebpf_available: self.ebpf_available,
            watched: watches_of(self.watched_ebpf_configs@),
            running: self.running_monitors@,
        }
    }
}

impl MonitorManager {
    /// The manager is sound: no key twice in the watch list, each under the
    /// key of its executable, and no name twice among the monitor tasks.
    pub closed spec fn wf(&self) -> bool {
        self@.wf() && keys_cached(self.watched_ebpf_configs@)
    }

    /// A sound manager has a sound model: what the laws of reconciliation
    /// ask of the model holds of every manager that the library hands out.
    pub proof fn lemma_wf_model(&self)
        requires
            self.wf(),
        ensures
            self@.wf(),
    {
    }

    /// A manager that runs no monitor and watches nothing. `ebpf_available`
    /// says whether there is an exit-tracepoint monitor to talk to.
    pub fn new(ebpf_available: bool) -> (r: Self)
        ensures
            r.wf(),
            r@.wf(),
            r@ == (ManagerModel { ebpf_available, watched: Seq::empty(), running: Seq::empty() }),
    {
        let r = MonitorManager {
            ebpf_available,
            watched_ebpf_configs: Vec::new(),
            running_monitors: Vec::new(),
        };
        proof {
            assert(r@.watched =~= Seq::<EbpfMonitorConfig>::empty());
        }
        r
    }

    /// A manager for a daemon without an exit-tracepoint monitor.
    pub fn new_without_ebpf() -> (r: Self)
        ensures
            r.wf(),
            r@.wf(),
            r@ == (ManagerModel {
                ebpf_available: false,
                watched: Seq::empty(),
                running: Seq::empty(),
            }),
    {
        MonitorManager::new(false)
    }

    /// The processes that have a monitor task.
    pub fn running_monitor_names(&self) -> (names: Vec<String>)
        ensures
            names@ == self@.running,
    {
        self.running_monitors.clone()
    }

    /// The keys that the manager knows to be in the kernel's watch list.
    pub fn watched_keys(&self) -> (keys: Vec<[u8; 16]>)
        requires
            self.wf(),
        ensures
            keys@.len() == self@.watched.len(),
            forall|i: int| 0 <= i < keys@.len() ==> (#[trigger] keys@[i])@ == key_of(self@.watched[i]),
    {
        let mut keys: Vec<[u8; 16]> = Vec::new();
        let mut i: usize = 0;
        while i < self.watched_ebpf_configs.len()
            invariant
                self.wf(),
                i <= self.watched_ebpf_configs.len(),
                keys@.len() == i,
                forall|j: int| 0 <= j < i ==> (#[trigger] keys@[j])@ == key_of(self@.watched[j]),
            decreases self.watched_ebpf_configs.len() - i,
        {
            keys.push(self.watched_ebpf_configs[i].key);
            i += 1;
        }
        keys
    }
}

/// The step that starts the monitor task of `process`.
pub fn start_op(process: &ProcessConfig) -> (op: MonitorOp)
    ensures
        op == start_of(*process),
{
    match &process.monitor {
        MonitorConfig::Pid(f) => MonitorOp::StartPid(
            PidMonitorConfig {
                name: process.name.clone(),
                pid_file_path: f.pid_file_path.clone(),
                interval_secs: f.interval_secs,
            },
        ),
        MonitorConfig::Network(f) => MonitorOp::StartNetwork(
            NetworkMonitorConfig {
                name: process.name.clone(),
                target_url: f.target_url.clone(),
                interval_secs: f.interval_secs,
            },
        ),
        MonitorConfig::Ebpf(_) => MonitorOp::Watch(
            EbpfMonitorConfig { name: process.name.clone(), command: process.command.clone() },
        ),
    }
}

/// Adds to `ops` a step for each watch of `list` that `other` does not hold:
/// an `Unwatch` where `take_out` is set, a `Watch` where it is not.
fn push_missing(
    ops: &mut Vec<MonitorOp>,
    list: &Vec<WatchedExecutable>,
    other: &Vec<WatchedExecutable>,
    take_out: bool,
)
    requires
        keys_cached(list@),
        keys_cached(other@),
    ensures
        final(ops)@ == old(ops)@ + watches_of(list@).filter(
            missing_from(watches_of(other@)),
        ).map_values(
            |watch: EbpfMonitorConfig| if take_out {
                unwatch_of(watch)
            } else {
                watch_op_of(watch)
            },
        ),
{
    let ghost before = ops@;
    let ghost pred = missing_from(watches_of(other@));
    let ghost all = watches_of(list@);
    let mut i: usize = 0;
    proof {
        reveal(Seq::filter);
        assert(all.take(0) =~= Seq::<EbpfMonitorConfig>::empty());
        assert(ops@ =~= before + all.take(0).filter(pred).map_values(
            |watch: EbpfMonitorConfig| if take_out {
                unwatch_of(watch)
            } else {
                watch_op_of(watch)
            },
        ));
    }
    while i < list.len()
        invariant
            keys_cached(list@),
            keys_cached(other@),
            pred == missing_from(watches_of(other@)),
            all == watches_of(list@),
            i <= list.len(),
            ops@ == before + all.take(i as int).filter(pred).map_values(
                |watch: EbpfMonitorConfig| if take_out {
                    unwatch_of(watch)
                } else {
                    watch_op_of(watch)
                },
            ),
        decreases list.len() - i,
    {
        let entry = &list[i];
        let ghost seen = all.take(i as int);
        proof {
            assert(all.take(i + 1) =~= seen.push(entry.config));
            seen.lemma_filter_push(entry.config, pred);
        }
        if !has_watch(other, entry) {
            if take_out {
                ops.push(MonitorOp::Unwatch(entry.config.clone()));
            } else {
                ops.push(MonitorOp::Watch(entry.config.clone()));
            }
            proof {
                assert(ops@ =~= before + seen.push(entry.config).filter(pred).map_values(
                    |watch: EbpfMonitorConfig| if take_out {
                        unwatch_of(watch)
                    } else {
                        watch_op_of(watch)
                    },
                ));
            }
        }
        i += 1;
    }
    proof {
        assert(all.take(i as int) =~= all);
    }
}

impl MonitorManager {
    /// Plans the steps that bring the monitors and the kernel's watch list
    /// to what `processes` ask for. `finished` names the monitor tasks that
    /// have ended by themselves. The monitor tasks are taken as stopped and
    /// started as planned; each step on the watch list is taken over only
    /// when `record` is told that it succeeded.
    pub fn reconcile(&mut self, processes: &Vec<ProcessConfig>, finished: &Vec<String>) -> (ops: Vec<
        MonitorOp,
    >)
        requires
            old(self).wf(),
        ensures
            final(self).wf(),
            final(self)@.wf(),
            ops@ == old(self)@.plan(processes@, finished@),
            final(self)@ == old(self)@.reconciled(processes@),
    {
        let ghost model = self@;
        let mut ops: Vec<MonitorOp> = Vec::new();
        if self.ebpf_available {
            let desired = collect_watches(processes);
            push_missing(&mut ops, &self.watched_ebpf_configs, &desired, true);
            push_missing(&mut ops, &desired, &self.watched_ebpf_configs, false);
            proof {
                assert(ops@ =~= model.watch_plan(processes@));
            }
        }
        let tasks = collect_tasks(processes);
        let ghost wanted = desired_tasks(processes@);
        let ghost watch_ops = ops@;
        let mut kept: Vec<String> = Vec::new();
        let mut i: usize = 0;
        proof {
            reveal(Seq::filter);
            assert(model.running.take(0) =~= Seq::<String>::empty());
            assert(ops@ =~= watch_ops + model.running.take(0).filter(not_desired(wanted)).map_values(
                |name: String| stop_of(name),
            ));
        }
        while i < self.running_monitors.len()
            invariant
                self@ == model,
                self.wf(),
                processes_of(tasks@) == wanted,
                i <= self.running_monitors.len(),
                kept@ == model.running.take(i as int).filter(is_desired(wanted)),
                ops@ == watch_ops + model.running.take(i as int).filter(
                    not_desired(wanted),
                ).map_values(|name: String| stop_of(name)),
            decreases self.running_monitors.len() - i,
        {
            let name = &self.running_monitors[i];
            let ghost seen = model.running.take(i as int);
            proof {
                assert(model.running.take(i + 1) =~= seen.push(*name));
                seen.lemma_filter_push(*name, is_desired(wanted));
                seen.lemma_filter_push(*name, not_desired(wanted));
            }
            if has_process(&tasks, name.as_str()) {
                kept.push(name.clone());
            } else {
                ops.push(MonitorOp::Stop(name.clone()));
                proof {
                    assert(ops@ =~= watch_ops + seen.push(*name).filter(
                        not_desired(wanted),
                    ).map_values(|name: String| stop_of(name)));
                }
            }
            i += 1;
        }
        proof {
            assert(model.running.take(i as int) =~= model.running);
        }
        let ghost stop_ops = ops@;
        let ghost kept_running = kept@;
        let mut k: usize = 0;
        proof {
            assert(wanted.take(0) =~= Seq::<ProcessConfig>::empty());
            assert(ops@ =~= stop_ops + wanted.take(0).filter(
                needs_start(model.running, finished@),
            ).map_values(|process: ProcessConfig| start_of(process)));
            assert(kept@ =~= kept_running + wanted.take(0).filter(
                not_running(model.running),
            ).map_values(|process: ProcessConfig| name_of(process)));
        }
        while k < tasks.len()
            invariant
                self@ == model,
                self.wf(),
                processes_of(tasks@) == wanted,
                k <= tasks.len(),
                kept@ == kept_running + wanted.take(k as int).filter(
                    not_running(model.running),
                ).map_values(|process: ProcessConfig| name_of(process)),
                ops@ == stop_ops + wanted.take(k as int).filter(
                    needs_start(model.running, finished@),
                ).map_values(|process: ProcessConfig| start_of(process)),
            decreases tasks.len() - k,
        {
            let process: &ProcessConfig = tasks[k];
            let ghost seen = wanted.take(k as int);
            proof {
                assert(wanted[k as int] == *process);
                assert(wanted.take(k + 1) =~= seen.push(*process));
                seen.lemma_filter_push(*process, not_running(model.running));
                seen.lemma_filter_push(*process, needs_start(model.running, finished@));
            }
            let running = holds_name(&self.running_monitors, process.name.as_str());
            if !running || holds_name(finished, process.name.as_str()) {
                ops.push(start_op(process));
                proof {
                    assert(ops@ =~= stop_ops + seen.push(*process).filter(
                        needs_start(model.running, finished@),
                    ).map_values(|process: ProcessConfig| start_of(process)));
                }
            }
            if !running {
                kept.push(process.name.clone());
                proof {
                    assert(kept@ =~= kept_running + seen.push(*process).filter(
                        not_running(model.running),
                    ).map_values(|process: ProcessConfig| name_of(process)));
                }
            }
            k += 1;
        }
        proof {
            assert(wanted.take(k as int) =~= wanted);
            assert(ops@ =~= model.plan(processes@, finished@));
            lemma_reconciled_wf(model, processes@);
        }
        self.running_monitors = kept;
        ops
    }
}

impl MonitorManager {
    /// Forgets the watch with the key `key`, if the manager remembers one.
    fn forget_key(&mut self, key: &[u8; 16])
        requires
            old(self).wf(),
        ensures
            final(self).wf(),
            final(self)@ == (ManagerModel {
                watched: old(self)@.watched.filter(other_key(key@)),
                ..old(self)@
            }),
    {
        let ghost model = self@;
        let ghost pred = other_key(key@);
        let mut kept: Vec<WatchedExecutable> = Vec::new();
        let mut i: usize = 0;
        proof {
            reveal(Seq::filter);
            assert(model.watched.take(0) =~= Seq::<EbpfMonitorConfig>::empty());
            assert(watches_of(kept@) =~= model.watched.take(0).filter(pred));
        }
        while i < self.watched_ebpf_configs.len()
            invariant
                self@ == model,
                self.wf(),
                pred == other_key(key@),
                i <= self.watched_ebpf_configs.len(),
                keys_cached(kept@),
                watches_of(kept@) == model.watched.take(i as int).filter(pred),
            decreases self.watched_ebpf_configs.len() - i,
        {
            let entry = &self.watched_ebpf_configs[i];
            let ghost seen = model.watched.take(i as int);
            let ghost before = kept@;
            proof {
                assert(model.watched.take(i + 1) =~= seen.push(entry.config));
                seen.lemma_filter_push(entry.config, pred);
            }
            if !keys_equal(&entry.key, key) {
                kept.push(WatchedExecutable { key: entry.key, config: entry.config.clone() });
                proof {
                    assert(watches_of(kept@) =~= watches_of(before).push(entry.config));
                }
            }
            i += 1;
        }
        proof {
            assert(model.watched.take(i as int) =~= model.watched);
            lemma_filter_keeps_distinct_keys(model.watched, pred);
        }
        self.watched_ebpf_configs = kept;
    }

    /// Takes in the outcome of one step of a reconciliation. A step on the
    /// kernel's watch list that succeeded is remembered; one that failed
    /// leaves the manager as it was, so that the next reconciliation plans
    /// it again.
    pub fn record(&mut self, op: &MonitorOp, succeeded: bool)
        requires
            old(self).wf(),
        ensures
            final(self).wf(),
            final(self)@.wf(),
            final(self)@ == old(self)@.recorded(*op, succeeded),
    {
        if !succeeded {
            return ;
        }
        match op {
            MonitorOp::Unwatch(watch) => {
                let key = key_for(watch.command.as_str());
                self.forget_key(&key);
            },
            MonitorOp::Watch(watch) => {
                let key = key_for(watch.command.as_str());
                self.forget_key(&key);
                let ghost rest = self@.watched;
                let ghost entries = self.watched_ebpf_configs@;
                self.watched_ebpf_configs.push(WatchedExecutable { key, config: watch.clone() });
                proof {
                    assert(self@.watched =~= rest.push(*watch));
                    assert forall|i: int| 0 <= i < rest.len() implies key_of(#[trigger] rest[i])
                        != key@ by {
                        old(self)@.watched.lemma_filter_pred(other_key(key@), i);
                    }
                }
            },
            _ => {},
        }
    }

    /// Plans a shutdown: every monitor task is stopped, then the
    /// exit-tracepoint monitor is shut down, if there is one. The manager
    /// runs nothing afterwards.
    pub fn shutdown(&mut self) -> (ops: Vec<MonitorOp>)
        requires
            old(self).wf(),
        ensures
            final(self).wf(),
            final(self)@.wf(),
            ops@ == old(self)@.shutdown_plan(),
            final(self)@ == (ManagerModel {
                ebpf_available: false,
                running: Seq::empty(),
                ..old(self)@
            }),
    {
        let ghost model = self@;
        let mut ops: Vec<MonitorOp> = Vec::new();
        let mut i: usize = 0;
        while i < self.running_monitors.len()
            invariant
                self@ == model,
                self.wf(),
                i <= self.running_monitors.len(),
                ops@ == model.running.take(i as int).map_values(|name: String| stop_of(name)),
            decreases self.running_monitors.len() - i,
        {
            ops.push(MonitorOp::Stop(self.running_monitors[i].clone()));
            proof {
                assert(ops@ =~= model.running.take(i + 1).map_values(|name: String| stop_of(name)));
            }
            i += 1;
        }
        proof {
            assert(model.running.take(i as int) =~= model.running);
        }
        if self.ebpf_available {
            ops.push(MonitorOp::ShutdownEbpf);
        }
        self.ebpf_available = false;
        self.running_monitors = Vec::new();
        ops
    }
}

} // verus!
