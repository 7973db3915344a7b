use vstd::prelude::*;

verus! {

/// A signal that the daemon listens for.
#[derive(Debug, Clone, Copy, PartialEq, Eq)]
pub enum Signal {
    /// SIGHUP
    Hangup,
    /// SIGTERM
    Terminate,
    /// SIGINT
    Interrupt,
}

/// What a signal asks of the daemon.
#[derive(Debug, Clone, Copy, PartialEq, Eq)]
pub enum SignalEvent {
    /// Read the configuration again and reconcile.
    ConfigReload,
    /// Stop the monitors, then exit.
    Shutdown,
}

/// Turns signals into what they ask for.
pub struct SignalHandler;

impl SignalHandler {
    /// What `signal` asks of the daemon: a hangup asks for a reload, a
    /// termination or an interrupt for a shutdown.
    pub fn classify(signal: Signal) -> (event: SignalEvent)
        ensures
            event == match signal {
                Signal::Hangup => SignalEvent::ConfigReload,
                Signal::Terminate => SignalEvent::Shutdown,
                Signal::Interrupt => SignalEvent::Shutdown,
            },
    {
        match signal {
            Signal::Hangup => SignalEvent::ConfigReload,
            Signal::Terminate => SignalEvent::Shutdown,
            Signal::Interrupt => SignalEvent::Shutdown,
        }
    }
}

} // verus!
