//! Decision logic of a role-play chat assistant: what is sent to a model, what is kept of a
//! conversation, when a reply is due, and how replies and settings are checked.

pub mod admin;
pub mod ai_provider;
pub mod chat_history;
pub mod commands;
pub mod config;
pub mod conversation_context;
pub mod conversation_control;
pub mod conversation_trigger;
pub mod history_compression;
pub mod id_set;
pub mod json;
pub mod local_time;
pub mod memory;
pub mod message_enricher;
pub mod message_ingestion;
pub mod pipeline;
pub mod repository;
pub mod resource_cleanup;
pub mod runtime_state;
pub mod scheduler;
pub mod skills;
pub mod startup_history_sync;
pub mod supervisor;
pub mod text;
pub mod text_utils;
pub mod toml_text;
pub mod tools;
pub mod transport;
