//! Workflows: the task graph, its execution state and the services around them.
pub mod actor;
pub mod dag;
pub mod dag_laws;
pub mod dispatch_laws;
pub mod execution;
pub mod execution_laws;
pub mod failover;
pub mod failover_laws;
pub mod gossip;
pub mod gossip_laws;
pub mod graph;
pub mod messaging;
pub mod orchestrator;
pub mod phase;
pub mod runtime;
pub mod scheduler;
pub mod task;
pub mod wait;
pub mod wire;
