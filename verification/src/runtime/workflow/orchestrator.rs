//! The orchestrator: submits, drives, cancels, persists and recovers workflows.
pub mod branches;
pub mod counts;
pub mod dependencies;
pub mod drive;
pub mod engine;
pub mod events;
pub mod growth_laws;
pub mod keys;
pub mod laws;
pub mod lifecycle;
pub mod persistence;
pub mod progress;
pub mod queries;
pub mod recovery;
pub mod recovery_laws;
pub mod replay;
pub mod settling_laws;
pub mod skip;
pub mod slot;
pub mod state;
pub mod submit;
pub mod timeouts;
pub mod wait_laws;
pub mod waitpoint;
