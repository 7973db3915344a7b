pub mod dependency_coordinator;
