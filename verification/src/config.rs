use crate::daemon_handler::DaemonConfig;
use crate::text::{join_path, joined, str_eq};
use vstd::prelude::*;
use vstd::string::*;

verus! {

/// The whole configuration: where the daemon keeps its files, and the
/// processes it looks after. Paths are kept as text.
#[derive(Debug, PartialEq, Eq)]
pub struct AppConfig {
    pub log_level: Option<String>,
    pub log_directory: Option<String>,
    pub pid_file_directory: Option<String>,
    pub processes: Vec<ProcessConfig>,
    pub working_directory: Option<String>,
}

/// One supervised process. `name` is its key: no two processes share one.
#[derive(Debug, PartialEq, Eq)]
pub struct ProcessConfig {
    pub name: String,
    pub enabled: bool,
    pub command: String,
    pub args: Vec<String>,
    pub run_as_user: Option<String>,
    pub run_as_root: bool,
    pub working_dir: Option<String>,
    pub monitor: MonitorConfig,
    pub recovery: RecoveryConfig,
    pub dependencies: Vec<RawDependency>,
}

/// A dependency as written: a bare target name, or an edge in full.
#[derive(Debug, PartialEq, Eq)]
pub enum RawDependency {
    Simple(String),
    Detailed(DependencyConfig),
}

/// An edge to another process.
#[derive(Debug, PartialEq, Eq)]
pub struct DependencyConfig {
    pub target: String,
    pub kind: DependencyKind,
    pub hard: bool,
    /// How long a restart may wait for this dependency, from its first deferral.
    pub max_wait_secs: u64,
    pub on_failure: OnFailure,
}

/// What an edge asks for. Only `Requires` can hold a restart back.
#[derive(Debug, Clone, Copy, PartialEq, Eq, Structural)]
pub enum DependencyKind {
    Requires,
    After,
}

/// What happens to a restart when a dependency it waits for runs out of time.
#[derive(Debug, Clone, Copy, PartialEq, Eq, Structural)]
pub enum OnFailure {
    Abort,
    Skip,
    Degrade,
}

/// The kind of an edge that names none.
pub fn default_kind() -> (r: DependencyKind)
    ensures
        r == DependencyKind::Requires,
{
    DependencyKind::Requires
}

/// Whether an edge is hard where it does not say.
pub fn default_true() -> (r: bool)
    ensures
        r,
{
    true
}

/// How long an edge waits where it does not say, in seconds.
pub fn default_max_wait_secs() -> (r: u64)
    ensures
        r == 30,
{
    30
}

/// The timeout policy of an edge that names none.
pub fn default_on_failure() -> (r: OnFailure)
    ensures
        r == OnFailure::Abort,
{
    OnFailure::Abort
}

/// How a process is watched.
#[derive(Debug, PartialEq, Eq)]
pub enum MonitorConfig {
    Pid(PidMonitorFields),
    Ebpf(EbpfMonitorFields),
    Network(NetworkMonitorFields),
}

/// A PID file, read at an interval.
#[derive(Debug, PartialEq, Eq)]
pub struct PidMonitorFields {
    pub pid_file_path: String,
    pub interval_secs: u64,
}

/// A health URL, probed at an interval.
#[derive(Debug, PartialEq, Eq)]
pub struct NetworkMonitorFields {
    pub target_url: String,
    pub interval_secs: u64,
}

/// The exit tracepoint; the executable to watch follows from the command.
#[derive(Debug, Clone, Copy, PartialEq, Eq)]
pub struct EbpfMonitorFields {}

/// The only recovery policy with a meaning: a restart budget inside a sliding
/// window, and a cooldown once the budget is spent.
#[derive(Clone, Copy, Debug, PartialEq, Eq)]
pub struct RegularHealerFields {
    pub retries: u32,
    pub retry_window_secs: u64,
    pub cooldown_secs: u64,
}

/// Fields of the placeholder policy: none.
#[derive(Clone, Copy, Debug, PartialEq, Eq)]
pub struct NotREgularHealerFields {}

/// How restarts of a process are rationed.
#[derive(Clone, Copy, Debug, PartialEq, Eq)]
pub enum RecoveryConfig {
    Regular(RegularHealerFields),
    /// Placeholder without a policy behind it: every restart is denied.
    NotRegular(NotREgularHealerFields),
}

/// What a PID monitor needs to know of its process.
#[derive(Debug, PartialEq, Eq)]
pub struct PidMonitorConfig {
    pub name: String,
    pub pid_file_path: String,
    pub interval_secs: u64,
}

/// What the exit-tracepoint monitor needs to know of a process.
#[derive(Debug, PartialEq, Eq)]
pub struct EbpfMonitorConfig {
    pub name: String,
    pub command: String,
}

/// What a network monitor needs to know of its process.
#[derive(Debug, PartialEq, Eq)]
pub struct NetworkMonitorConfig {
    pub name: String,
    pub target_url: String,
    pub interval_secs: u64,
}

impl Default for RegularHealerFields {
    fn default() -> (r: Self)
        ensures
            r == (RegularHealerFields { retries: 3, retry_window_secs: 60, cooldown_secs: 180 }),
    {
        RegularHealerFields { retries: 3, retry_window_secs: 60, cooldown_secs: 180 }
    }
}

impl Default for RecoveryConfig {
    fn default() -> (r: Self)
        ensures
            r == RecoveryConfig::Regular(
                RegularHealerFields { retries: 3, retry_window_secs: 60, cooldown_secs: 180 },
            ),
    {
        RecoveryConfig::Regular(
            RegularHealerFields { retries: 3, retry_window_secs: 60, cooldown_secs: 180 },
        )
    }
}

impl Clone for PidMonitorFields {
    fn clone(&self) -> (r: Self)
        ensures
            r == *self,
    {
        PidMonitorFields {
            pid_file_path: self.pid_file_path.clone(),
            interval_secs: self.interval_secs,
        }
    }
}

impl Clone for NetworkMonitorFields {
    fn clone(&self) -> (r: Self)
        ensures
            r == *self,
    {
        NetworkMonitorFields {
            target_url: self.target_url.clone(),
            interval_secs: self.interval_secs,
        }
    }
}

impl Clone for MonitorConfig {
    fn clone(&self) -> (r: Self)
        ensures
            r == *self,
    {
        match self {
            MonitorConfig::Pid(f) => MonitorConfig::Pid(f.clone()),
            MonitorConfig::Ebpf(f) => MonitorConfig::Ebpf(*f),
            MonitorConfig::Network(f) => MonitorConfig::Network(f.clone()),
        }
    }
}

impl Clone for RawDependency {
    fn clone(&self) -> (r: Self)
        ensures
            r == *self,
    {
        match self {
            RawDependency::Simple(name) => RawDependency::Simple(name.clone()),
            RawDependency::Detailed(d) => RawDependency::Detailed(d.clone()),
        }
    }
}

/// Whether `copy` says of a process what `process` says.
pub open spec fn same_process(process: ProcessConfig, copy: ProcessConfig) -> bool {
    &&& copy.name == process.name
    &&& copy.enabled == process.enabled
    &&& copy.command == process.command
    &&& copy.args@ == process.args@
    &&& copy.run_as_user == process.run_as_user
    &&& copy.run_as_root == process.run_as_root
    &&& copy.working_dir == process.working_dir
    &&& copy.monitor == process.monitor
    &&& copy.recovery == process.recovery
    &&& copy.dependencies@ == process.dependencies@
}

impl Clone for ProcessConfig {
    fn clone(&self) -> (r: Self)
        ensures
            same_process(*self, r),
    {
        ProcessConfig {
            name: self.name.clone(),
            enabled: self.enabled,
            command: self.command.clone(),
            args: self.args.clone(),
            run_as_user: clone_text(&self.run_as_user),
            run_as_root: self.run_as_root,
            working_dir: clone_text(&self.working_dir),
            monitor: self.monitor.clone(),
            recovery: self.recovery,
            dependencies: self.dependencies.clone(),
        }
    }
}

impl Clone for AppConfig {
    fn clone(&self) -> (r: Self)
        ensures
            r.log_level == self.log_level,
            r.log_directory == self.log_directory,
            r.pid_file_directory == self.pid_file_directory,
            r.working_directory == self.working_directory,
            r.processes@.len() == self.processes@.len(),
            forall|i: int|
                0 <= i < self.processes@.len() ==> same_process(
                    self.processes@[i],
                    #[trigger] r.processes@[i],
                ),
    {
        let mut processes: Vec<ProcessConfig> = Vec::new();
        let mut i: usize = 0;
        while i < self.processes.len()
            invariant
                i <= self.processes.len(),
                processes@.len() == i,
                forall|j: int|
                    0 <= j < i ==> same_process(self.processes@[j], #[trigger] processes@[j]),
            decreases self.processes.len() - i,
        {
            processes.push(self.processes[i].clone());
            i += 1;
        }
        AppConfig {
            log_level: clone_text(&self.log_level),
            log_directory: clone_text(&self.log_directory),
            pid_file_directory: clone_text(&self.pid_file_directory),
            processes,
            working_directory: clone_text(&self.working_directory),
        }
    }
}

/// A copy of a text that may be missing.
pub fn clone_text(text: &Option<String>) -> (r: Option<String>)
    ensures
        r == *text,
{
    match text {
        Some(t) => Some(t.clone()),
        None => None,
    }
}

impl Clone for DependencyConfig {
    fn clone(&self) -> (r: Self)
        ensures
            r == *self,
    {
        DependencyConfig {
            target: self.target.clone(),
            kind: self.kind,
            hard: self.hard,
            max_wait_secs: self.max_wait_secs,
            on_failure: self.on_failure,
        }
    }
}

impl Clone for PidMonitorConfig {
    fn clone(&self) -> (r: Self)
        ensures
            r == *self,
    {
        PidMonitorConfig {
            name: self.name.clone(),
            pid_file_path: self.pid_file_path.clone(),
            interval_secs: self.interval_secs,
        }
    }
}

impl Clone for EbpfMonitorConfig {
    fn clone(&self) -> (r: Self)
        ensures
            r == *self,
    {
        EbpfMonitorConfig { name: self.name.clone(), command: self.command.clone() }
    }
}

impl Clone for NetworkMonitorConfig {
    fn clone(&self) -> (r: Self)
        ensures
            r == *self,
    {
        NetworkMonitorConfig {
            name: self.name.clone(),
            target_url: self.target_url.clone(),
            interval_secs: self.interval_secs,
        }
    }
}

impl RawDependency {
    /// The edge a written dependency stands for. A bare name is a hard
    /// Requires edge that waits 30 seconds and aborts.
    pub open spec fn resolved(self) -> DependencyConfig {
        match self {
            RawDependency::Simple(name) => DependencyConfig {
                target: name,
                kind: DependencyKind::Requires,
                hard: true,
                max_wait_secs: 30,
                on_failure: OnFailure::Abort,
            },
            RawDependency::Detailed(d) => d,
        }
    }

    /// The edge that this written dependency stands for.
    pub fn resolve(&self) -> (r: DependencyConfig)
        ensures
            r == self.resolved(),
    {
        match self {
            RawDependency::Simple(name) => DependencyConfig {
                target: name.clone(),
                kind: default_kind(),
                hard: default_true(),
                max_wait_secs: default_max_wait_secs(),
                on_failure: default_on_failure(),
            },
            RawDependency::Detailed(d) => d.clone(),
        }
    }
}

impl ProcessConfig {
    /// The PID monitor's view of this process, if a PID monitor watches it.
    pub fn get_pid_monitor_config(&self) -> (r: Option<PidMonitorConfig>)
        ensures
            r == match self.monitor {
                MonitorConfig::Pid(f) => Some(
                    PidMonitorConfig {
                        name: self.name,
                        pid_file_path: f.pid_file_path,
                        interval_secs: f.interval_secs,
                    },
                ),
                _ => None,
            },
    {
        if let MonitorConfig::Pid(pid_fields) = &self.monitor {
            Some(
                PidMonitorConfig {
                    name: self.name.clone(),
                    pid_file_path: pid_fields.pid_file_path.clone(),
                    interval_secs: pid_fields.interval_secs,
                },
            )
        } else {
            None
        }
    }

    /// The exit-tracepoint monitor's view of this process, if it watches it.
    pub fn get_ebpf_monitor_config(&self) -> (r: Option<EbpfMonitorConfig>)
        ensures
            r == match self.monitor {
                MonitorConfig::Ebpf(_) => Some(
                    EbpfMonitorConfig { name: self.name, command: self.command },
                ),
                _ => None,
            },
    {
        if let MonitorConfig::Ebpf(_ebpf_fields) = &self.monitor {
            Some(EbpfMonitorConfig { name: self.name.clone(), command: self.command.clone() })
        } else {
            None
        }
    }

    /// The network monitor's view of this process, if a network monitor watches it.
    pub fn get_network_monitor_config(&self) -> (r: Option<NetworkMonitorConfig>)
        ensures
            r == match self.monitor {
                MonitorConfig::Network(f) => Some(
                    NetworkMonitorConfig {
                        name: self.name,
                        target_url: f.target_url,
                        interval_secs: f.interval_secs,
                    },
                ),
                _ => None,
            },
    {
        if let MonitorConfig::Network(net_fields) = &self.monitor {
            Some(
                NetworkMonitorConfig {
                    name: self.name.clone(),
                    target_url: net_fields.target_url.clone(),
                    interval_secs: net_fields.interval_secs,
                },
            )
        } else {
            None
        }
    }

    /// The edges of this process, each in full, in the order written.
    pub open spec fn resolved_deps(self) -> Seq<DependencyConfig> {
        self.dependencies@.map_values(|raw: RawDependency| raw.resolved())
    }

    /// The edges of this process, each in full, in the order written.
    pub fn resolved_dependencies(&self) -> (r: Vec<DependencyConfig>)
        ensures
            r@ == self.resolved_deps(),
    {
        let mut out: Vec<DependencyConfig> = Vec::new();
        let mut i: usize = 0;
        while i < self.dependencies.len()
            invariant
                i <= self.dependencies.len(),
                out@ == self.resolved_deps().take(i as int),
            decreases self.dependencies.len() - i,
        {
            out.push(self.dependencies[i].resolve());
            proof {
                assert(self.resolved_deps().take(i + 1) =~= self.resolved_deps().take(
                    i as int,
                ).push(self.dependencies[i as int].resolved()));
            }
            i += 1;
        }
        proof {
            assert(self.resolved_deps().take(i as int) =~= self.resolved_deps());
        }
        out
    }
}

/// Position of the first process called `name`, if there is one.
pub open spec fn first_named(processes: Seq<ProcessConfig>, name: Seq<char>, at: int) -> bool {
    &&& 0 <= at < processes.len()
    &&& processes[at].name@ == name
    &&& forall|j: int| 0 <= j < at ==> processes[j].name@ != name
}

/// Whether some process is called `name`.
pub open spec fn names_process(processes: Seq<ProcessConfig>, name: Seq<char>) -> bool {
    exists|i: int| 0 <= i < processes.len() && #[trigger] processes[i].name@ == name
}

/// No two processes share a name.
pub open spec fn unique_names(processes: Seq<ProcessConfig>) -> bool {
    forall|i: int, j: int|
        0 <= i < j < processes.len() ==> #[trigger] processes[i].name@ != #[trigger] processes[j].name@
}

impl AppConfig {
    /// Whether no two processes share a name.
    pub fn names_are_unique(&self) -> (r: bool)
        ensures
            r == unique_names(self.processes@),
    {
        let mut j: usize = 0;
        while j < self.processes.len()
            invariant
                j <= self.processes.len(),
                unique_names(self.processes@.take(j as int)),
            decreases self.processes.len() - j,
        {
            let mut i: usize = 0;
            while i < j
                invariant
                    i <= j < self.processes.len(),
                    forall|k: int| 0 <= k < i ==> self.processes[k].name@ != self.processes[j as int].name@,
                decreases j - i,
            {
                if str_eq(self.processes[i].name.as_str(), self.processes[j].name.as_str()) {
                    return false;
                }
                i += 1;
            }
            proof {
                let next = self.processes@.take(j + 1);
                assert forall|a: int, b: int| 0 <= a < b < next.len() implies next[a].name@
                    != next[b].name@ by {
                    if b < j {
                        assert(self.processes@.take(j as int)[a].name@ != self.processes@.take(
                            j as int,
                        )[b].name@);
                    }
                }
            }
            j += 1;
        }
        proof {
            assert(self.processes@.take(j as int) =~= self.processes@);
        }
        true
    }

    /// Position of the first process called `process_name`.
    pub fn find_process(&self, process_name: &str) -> (r: Option<usize>)
        ensures
            match r {
                Some(at) => first_named(self.processes@, process_name@, at as int),
                None => !names_process(self.processes@, process_name@),
            },
    {
        let mut i: usize = 0;
        while i < self.processes.len()
            invariant
                i <= self.processes.len(),
                forall|j: int| 0 <= j < i ==> self.processes[j].name@ != process_name@,
            decreases self.processes.len() - i,
        {
            if str_eq(self.processes[i].name.as_str(), process_name) {
                return Some(i);
            }
            i += 1;
        }
        None
    }

    /// The first process called `process_name`, if the configuration has one.
    pub fn get_process_config_for(&self, process_name: &str) -> (r: Option<&ProcessConfig>)
        ensures
            match r {
                Some(p) => exists|at: int|
                    first_named(self.processes@, process_name@, at) && *p == self.processes[at],
                None => !names_process(self.processes@, process_name@),
            },
    {
        match self.find_process(process_name) {
            Some(at) => Some(&self.processes[at]),
            None => None,
        }
    }

    /// Where the daemonizer keeps its files: the PID file `healer.pid` under
    /// the PID directory, the log directory and the working directory, each
    /// with its default where the configuration names none.
    pub fn to_daemonize_config(&self) -> (r: DaemonConfig)
        ensures
            r.pid_file@ == match self.pid_file_directory {
                Some(dir) => joined(dir@, "healer.pid"@),
                None => "/tmp/healer.pid"@,
            },
            r.log_directory@ == match self.log_directory {
                Some(dir) => dir@,
                None => "/tmp/healer"@,
            },
            r.working_dir@ == match self.working_directory {
                Some(dir) => dir@,
                None => "/"@,
            },
    {
        let pid_file = match &self.pid_file_directory {
            Some(dir) => join_path(dir.as_str(), "healer.pid"),
            None => "/tmp/healer.pid".to_owned(),
        };
        let log_directory = match &self.log_directory {
            Some(dir) => dir.clone(),
            None => "/tmp/healer".to_owned(),
        };
        let working_dir = match &self.working_directory {
            Some(dir) => dir.clone(),
            None => "/".to_owned(),
        };
        DaemonConfig { pid_file, log_directory, working_dir }
    }
}

/// The names a configuration knows.
pub open spec fn config_names(processes: Seq<ProcessConfig>) -> Set<Seq<char>> {
    Set::new(|name: Seq<char>| names_process(processes, name))
}

/// The first process called `name`.
pub open spec fn process_named(processes: Seq<ProcessConfig>, name: Seq<char>) -> Option<
    ProcessConfig,
> {
    if names_process(processes, name) {
        Some(processes[choose|at: int| first_named(processes, name, at)])
    } else {
        None
    }
}

/// The process that a search by name finds is the first of that name.
pub proof fn lemma_first_named(processes: Seq<ProcessConfig>, name: Seq<char>, at: int)
    requires
        first_named(processes, name, at),
    ensures
        process_named(processes, name) == Some(processes[at]),
{
    let other = choose|other: int| first_named(processes, name, other);
    assert(first_named(processes, name, other));
    assert(other == at);
}

} // verus!
