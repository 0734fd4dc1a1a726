//! Actor-based workflow runtime: the verified core.

pub mod common;
pub mod keymap;
pub mod runtime;
pub mod store;
pub mod table;
pub mod text;
pub mod text_laws;
pub mod worker;

