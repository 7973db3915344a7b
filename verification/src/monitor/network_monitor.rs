use crate::config::NetworkMonitorConfig;
use crate::event_bus::ProcessEvent;
use crate::monitor::Monitor;
use vstd::prelude::*;
use vstd::string::*;

verus! {

/// How one HTTP probe ended.
#[derive(Debug, Clone, Copy, PartialEq, Eq)]
pub enum HttpOutcome {
    /// The server answered, with this status code.
    Status(u16),
    /// The connection was refused or could not be made.
    ConnectFailed,
    /// No answer came in time.
    TimedOut,
    /// The request failed on the way for another reason.
    OtherError,
}

/// What a probe says about the process.
#[derive(Debug, Clone, Copy, PartialEq, Eq)]
pub enum NetworkHealth {
    Healthy,
    /// The server answered with a status outside 200..=299.
    Unhealthy(u16),
    Unreachable,
}

/// Whether a status code reports success.
pub open spec fn is_success(status: u16) -> bool {
    200 <= status <= 299
}

impl HttpOutcome {
    /// What the outcome says about the process.
    pub open spec fn health(self) -> NetworkHealth {
        match self {
            HttpOutcome::Status(status) => if is_success(status) {
                NetworkHealth::Healthy
            } else {
                NetworkHealth::Unhealthy(status)
            },
            _ => NetworkHealth::Unreachable,
        }
    }
}

/// Watches a process through a health URL.
pub struct NetworkMonitor {
    config: NetworkMonitorConfig,
}

impl View for NetworkMonitor {
    type V = NetworkMonitorConfig;

    closed spec fn view(&self) -> NetworkMonitorConfig {
        self.config
    }
}

impl NetworkMonitor {
    /// A monitor for the process that `config` describes.
    pub fn new(config: NetworkMonitorConfig) -> (r: Self)
        ensures
            r@ == config,
    {
        NetworkMonitor { config }
    }

    /// Seconds between two probes.
    pub fn check_interval(&self) -> (secs: u64)
        ensures
            secs == self@.interval_secs,
    {
        self.config.interval_secs
    }

    /// The URL to probe.
    pub fn target_url(&self) -> (url: &String)
        ensures
            *url == self@.target_url,
    {
        &self.config.target_url
    }

    /// What the outcome of a probe says about the process.
    pub fn assess(&self, outcome: HttpOutcome) -> (health: NetworkHealth)
        ensures
            health == outcome.health(),
    {
        match outcome {
            HttpOutcome::Status(status) => {
                if 200 <= status && status <= 299 {
                    NetworkHealth::Healthy
                } else {
                    NetworkHealth::Unhealthy(status)
                }
            },
            _ => NetworkHealth::Unreachable,
        }
    }

    /// The event that says that the process cannot be reached.
    pub fn publish_process_disconnected(&self) -> (event: ProcessEvent)
        ensures
            event == (ProcessEvent::ProcessDisconnected {
                name: self@.name,
                url: self@.target_url,
            }),
    {
        ProcessEvent::ProcessDisconnected {
            name: self.config.name.clone(),
            url: self.config.target_url.clone(),
        }
    }

    /// What one probe leads to: an event where the process could not be
    /// reached, nothing where a server answered, whatever its status.
    pub fn check_and_publish(&self, outcome: HttpOutcome) -> (event: Option<ProcessEvent>)
        ensures
            event == if outcome is Status {
                None
            } else {
                Some(
                    ProcessEvent::ProcessDisconnected {
                        name: self@.name,
                        url: self@.target_url,
                    },
                )
            },
    {
        match self.assess(outcome) {
            NetworkHealth::Unreachable => Some(self.publish_process_disconnected()),
            _ => None,
        }
    }
}

impl Monitor for NetworkMonitor {
    fn name(&self) -> (r: String)
        ensures
            r == self@.name,
    {
        self.config.name.clone()
    }
}

} // verus!
