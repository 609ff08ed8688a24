//! What wakes a conversation from within, without a message.

use vstd::prelude::*;

use crate::transport::MessageTarget;

verus! {

/// Wakes a conversation with a prompt.
#[derive(Debug, PartialEq, Eq)]
pub struct ConversationTrigger {
    pub user_prompt: String,
    /// Whether the conversation is to look through what it remembers.
    pub memory_review: bool,
}

/// A trigger with the conversation that it is for.
#[derive(Debug, PartialEq, Eq)]
pub struct RoutedConversationTrigger {
    pub target: MessageTarget,
    pub trigger: ConversationTrigger,
}

} // verus!
