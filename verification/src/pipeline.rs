//! From a message that comes in to what the assistant does.

pub mod ai_action;
pub mod chat_pipeline;
pub mod chat_processor;
pub mod conversation_actor;
pub mod dispatcher;
pub mod filter;
pub mod shown_context;
pub mod tool_loop;
