pub mod command_laws;
pub mod failover_methods;
pub mod gossip_methods;
pub mod scheduler_actor;
pub mod scheduler_methods;
pub mod workflow_actor;
pub mod workflow_methods;
