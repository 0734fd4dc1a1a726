pub mod batch;
pub mod checkpoint;
pub mod crdt;
pub mod event_log;
pub mod format;
pub mod hlc;
pub mod journal;
pub mod laws;
pub mod wal;
