//! Supervision engine of a process self-healing daemon.
//!
//! Every decision the daemon takes is a function from a state, an input and a
//! clock reading to the next state and an action. Timestamps are milliseconds
//! on a monotonic clock; deadlines are kept in `u128` so that no sum of a
//! timestamp and a configured span can overflow.

pub mod clock;
pub mod config;
pub mod coordinator;
pub mod core_logic;
pub mod daemon_handler;
pub mod event_bus;
pub mod exit_event;
pub mod monitor;
pub mod monitor_manager;
pub mod name_map;
pub mod service_manager;
pub mod signal_handler;
pub mod startup;
pub mod subscriber;
pub mod text;
pub mod utils;
