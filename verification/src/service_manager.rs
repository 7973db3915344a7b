use vstd::prelude::*;

verus! {

/// What the system said when asked, without waiting, for a child that has ended.
#[derive(Debug, Clone, Copy, PartialEq, Eq)]
pub enum WaitOutcome {
    /// A child ended by itself, with this status.
    Exited { pid: i32, status: i32 },
    /// A child was ended by this signal.
    Signaled { pid: i32, signal: i32 },
    /// Children run, and none of them has ended.
    StillAlive,
    /// There are no children.
    NoChildren,
    /// A child changed state in another way.
    Other,
    /// The call failed.
    Failed,
}

/// What the reaper does after one answer.
#[derive(Debug, Clone, Copy, PartialEq, Eq)]
pub enum ReapStep {
    /// Ask again: there may be more children to harvest.
    Again,
    /// Wait for the next child-termination signal.
    Done,
}

/// Runs the services that live as long as the daemon.
pub struct ServiceManager;

impl ServiceManager {
    /// One turn of the harvest: it goes on while children are reported, and
    /// ends when none is left to harvest or the call fails.
    pub fn reap_step(outcome: WaitOutcome) -> (step: ReapStep)
        ensures
            step == match outcome {
                WaitOutcome::Exited { .. } => ReapStep::Again,
                WaitOutcome::Signaled { .. } => ReapStep::Again,
                WaitOutcome::Other => ReapStep::Again,
                WaitOutcome::StillAlive => ReapStep::Done,
                WaitOutcome::NoChildren => ReapStep::Done,
                WaitOutcome::Failed => ReapStep::Done,
            },
    {
        match outcome {
            WaitOutcome::Exited { .. } => ReapStep::Again,
            WaitOutcome::Signaled { .. } => ReapStep::Again,
            WaitOutcome::Other => ReapStep::Again,
            WaitOutcome::StillAlive => ReapStep::Done,
            WaitOutcome::NoChildren => ReapStep::Done,
            WaitOutcome::Failed => ReapStep::Done,
        }
    }
}

} // verus!
