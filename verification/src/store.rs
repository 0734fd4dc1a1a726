pub mod hlc;
pub mod wal;
