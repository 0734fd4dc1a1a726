//! The runtime: workflow state machines and replicated state.
pub mod state;
pub mod workflow;
