//! What is stored of conversations, and the rules by which it changes.

pub mod character_memory;
pub mod db_manager;
pub mod user_memory;
