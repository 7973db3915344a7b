use crate::config::AppConfig;
use crate::event_bus::ProcessEvent;
use vstd::prelude::*;

pub mod circuit_breaker;
pub mod process_healer;

verus! {

/// A consumer of events: it takes one event in at a time and says what is
/// to be done about it.
pub trait Subscriber {
    /// What the subscriber asks to be done.
    type Action;

    /// The state of the subscriber is sound.
    spec fn sound(&self) -> bool;

    /// Takes in `event` at `now`, under the configuration `config`.
    fn handle_event(&mut self, event: ProcessEvent, config: &AppConfig, now: u64) -> (action:
        Self::Action)
        requires
            old(self).sound(),
        ensures
            final(self).sound(),
    ;
}

} // verus!
