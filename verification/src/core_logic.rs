use crate::signal_handler::SignalEvent;
use vstd::prelude::*;

verus! {

/// What the daemon's main loop does next.
#[derive(Debug, Clone, Copy, PartialEq, Eq)]
pub enum DaemonStep {
    /// Read the configuration again.
    ReloadConfig,
    /// Bring the monitors in line with the configuration.
    Reconcile,
    /// Wait for the next signal.
    Wait,
    /// Stop the monitors and exit.
    Shutdown,
}

/// What the main loop does when a signal has arrived.
pub fn on_signal(event: SignalEvent) -> (step: DaemonStep)
    ensures
        step == match event {
            SignalEvent::ConfigReload => DaemonStep::ReloadConfig,
            SignalEvent::Shutdown => DaemonStep::Shutdown,
        },
{
    match event {
        SignalEvent::ConfigReload => DaemonStep::ReloadConfig,
        SignalEvent::Shutdown => DaemonStep::Shutdown,
    }
}

/// What the main loop does when a reload has ended: the monitors are
/// reconciled with a configuration that was read, and left alone where
/// reading it failed.
pub fn after_reload(reloaded: bool) -> (step: DaemonStep)
    ensures
        step == if reloaded {
            DaemonStep::Reconcile
        } else {
            DaemonStep::Wait
        },
{
    if reloaded {
        DaemonStep::Reconcile
    } else {
        DaemonStep::Wait
    }
}

} // verus!
