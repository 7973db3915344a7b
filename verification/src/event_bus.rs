use vstd::prelude::*;
use vstd::string::*;

verus! {

/// How many messages a bus holds before a slow subscriber starts to lose them.
pub const CHANNEL_CAPACITY: usize = 128;

/// What travels on both buses.
#[derive(Debug, PartialEq, Eq)]
pub enum ProcessEvent {
    /// A PID monitor or the exit tracepoint saw the process end.
    ProcessDown { name: String, pid: u32 },
    /// A network probe could not reach the process.
    ProcessDisconnected { name: String, url: String },
    ProcessDependencyDetected { name: String, dependencies: Vec<String> },
    ProcessRestartSuccess {  },
    ProcessRestartFailed {  },
}

/// What a restart needs to know of its process.
#[derive(Debug, PartialEq, Eq)]
pub struct RestartProcessConfig {
    pub name: String,
    pub command: String,
    pub args: Vec<String>,
    pub workding_dir: Option<String>,
}

impl Clone for ProcessEvent {
    fn clone(&self) -> (r: Self)
        ensures
            match *self {
                ProcessEvent::ProcessDependencyDetected { name, dependencies } => r matches ProcessEvent::ProcessDependencyDetected {
                    name: n,
                    dependencies: d,
                } && n == name && d@ == dependencies@,
                _ => r == *self,
            },
    {
        match self {
            ProcessEvent::ProcessDown { name, pid } => ProcessEvent::ProcessDown {
                name: name.clone(),
                pid: *pid,
            },
            ProcessEvent::ProcessDisconnected { name, url } => ProcessEvent::ProcessDisconnected {
                name: name.clone(),
                url: url.clone(),
            },
            ProcessEvent::ProcessDependencyDetected {
                name,
                dependencies,
            } => ProcessEvent::ProcessDependencyDetected {
                name: name.clone(),
                dependencies: dependencies.clone(),
            },
            ProcessEvent::ProcessRestartSuccess {  } => ProcessEvent::ProcessRestartSuccess {  },
            ProcessEvent::ProcessRestartFailed {  } => ProcessEvent::ProcessRestartFailed {  },
        }
    }
}

impl ProcessEvent {
    /// Whether the event reports a failure of its process.
    pub open spec fn is_failure(self) -> bool {
        self is ProcessDown || self is ProcessDisconnected
    }

    /// The process whose failure the event reports.
    pub open spec fn failed_name(self) -> Seq<char>
        recommends
            self.is_failure(),
    {
        match self {
            ProcessEvent::ProcessDown { name, .. } => name@,
            ProcessEvent::ProcessDisconnected { name, .. } => name@,
            _ => Seq::empty(),
        }
    }

    /// The name of the process whose failure the event reports, as it
    /// stands in the event.
    pub open spec fn failed_string(self) -> String
        recommends
            self.is_failure(),
    {
        match self {
            ProcessEvent::ProcessDown { name, .. } => name,
            ProcessEvent::ProcessDisconnected { name, .. } => name,
            _ => arbitrary(),
        }
    }

    /// The process whose failure the event reports, if it reports one.
    pub fn failed_process(&self) -> (r: Option<&String>)
        ensures
            r is Some == self.is_failure(),
            r is Some ==> *r->0 == self.failed_string() && r->0@ == self.failed_name(),
    {
        match self {
            ProcessEvent::ProcessDown { name, .. } => Some(name),
            ProcessEvent::ProcessDisconnected { name, .. } => Some(name),
            _ => None,
        }
    }
}

} // verus!
