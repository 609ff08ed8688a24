//! Tasks that wake a conversation at points in time.

pub mod model;
pub mod service;
pub mod task_table;
