//! The pages from which the assistant is run.

pub mod api;
pub mod config_store;
pub mod config_text;
pub mod log_buffer;
pub mod skill_store;
