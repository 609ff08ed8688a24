//! Skills: files that tell the assistant how to do something.

pub mod loader;
pub mod model;
