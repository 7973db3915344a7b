use vstd::prelude::*;
use vstd::string::*;

verus! {

/// Where the daemonizer keeps its files. Paths are kept as text.
#[derive(Debug, PartialEq, Eq)]
pub struct DaemonConfig {
    pub pid_file: String,
    pub log_directory: String,
    pub working_dir: String,
}

impl Clone for DaemonConfig {
    fn clone(&self) -> (r: Self)
        ensures
            r == *self,
    {
        DaemonConfig {
            pid_file: self.pid_file.clone(),
            log_directory: self.log_directory.clone(),
            working_dir: self.working_dir.clone(),
        }
    }
}

impl Default for DaemonConfig {
    fn default() -> (r: Self)
        ensures
            r.pid_file@ == "/tmp/healer.pid"@,
            r.log_directory@ == "/tmp/healer"@,
            r.working_dir@ == "/"@,
    {
        DaemonConfig {
            pid_file: "/tmp/healer.pid".to_owned(),
            log_directory: "/tmp/healer".to_owned(),
            working_dir: "/".to_owned(),
        }
    }
}

} // verus!
