use vstd::prelude::*;

pub mod ebpf_monitor;
pub mod network_monitor;
pub mod pid_monitor;

verus! {

/// A source of failure events.
pub trait Monitor {
    /// The name the monitor goes by.
    fn name(&self) -> String;
}

} // verus!
