//! A worker that runs the tasks of workflows only.
pub mod laws;
pub mod router;
pub mod runtime;
