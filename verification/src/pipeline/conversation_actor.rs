//! The events of one conversation, one after the other.

use vstd::prelude::*;

use crate::commands::{CommandOutput, CommandRuntimeAction};
use crate::conversation_control::ConversationControl;
use crate::conversation_trigger::ConversationTrigger;
use crate::pipeline::filter::ConversationFilter;
use crate::transport::IncomingMessage;

verus! {

/// How long a batch waits for one more message, in seconds.
pub const MESSAGE_BATCH_WAIT_SECONDS: u64 = 2;

/// How many messages a batch holds at most.
pub const MESSAGE_BATCH_MAX_MESSAGES: usize = 5;

/// What happens in a conversation.
#[derive(Debug, PartialEq)]
pub enum ConversationEvent {
    IncomingMessage(IncomingMessage),
    InternalTrigger(ConversationTrigger),
}

/// What a batch does next.
#[derive(Debug, PartialEq)]
pub enum BatchStep {
    /// It waits for one more message.
    Wait,
    /// It is full.
    Full,
    /// It ends before this event, which comes next.
    EndBefore(ConversationEvent),
}

/// Messages that came in soon after one another.
#[derive(Debug, PartialEq)]
pub struct MessageBatch {
    messages: Vec<IncomingMessage>,
}

impl View for MessageBatch {
    /// The messages, in the order in which they came.
    type V = Seq<IncomingMessage>;

    closed spec fn view(&self) -> Seq<IncomingMessage> {
        self.messages@
    }
}

impl MessageBatch {
    #[verifier::type_invariant]
    closed spec fn fits(self) -> bool {
        1 <= self.messages@.len() <= MESSAGE_BATCH_MAX_MESSAGES
    }

    /// A batch that a message begins.
    pub fn new(first_message: IncomingMessage) -> (r: MessageBatch)
        ensures
            r@ == seq![first_message],
    {
        let mut messages: Vec<IncomingMessage> = Vec::new();
        messages.push(first_message);
        assert(messages@ =~= seq![first_message]);
        MessageBatch { messages }
    }

    /// Takes in an event; `is_command` tells whether it is a message that gives a command. A command
    /// and a trigger end the batch and come next; so does a message to a batch that is full.
    pub fn receive(self, event: ConversationEvent, is_command: bool) -> (r: (MessageBatch, BatchStep))
        ensures
            match event {
                ConversationEvent::IncomingMessage(message) => if is_command || self@.len()
                    >= MESSAGE_BATCH_MAX_MESSAGES {
                    r.0@ == self@ && r.1 == BatchStep::EndBefore(event)
                } else {
                    r.0@ == self@.push(message) && r.1 == (if self@.len() + 1
                        == MESSAGE_BATCH_MAX_MESSAGES {
                        BatchStep::Full
                    } else {
                        BatchStep::Wait
                    })
                },
                ConversationEvent::InternalTrigger(_) => r.0@ == self@ && r.1
                    == BatchStep::EndBefore(event),
            },
    {
        proof {
            use_type_invariant(&self);
        }
        match event {
            ConversationEvent::IncomingMessage(message) => {
                if is_command || self.messages.len() >= MESSAGE_BATCH_MAX_MESSAGES {
                    return (
                        self,
                        BatchStep::EndBefore(ConversationEvent::IncomingMessage(message)),
                    );
                }
                let mut messages = self.messages;
                messages.push(message);
                let full = messages.len() == MESSAGE_BATCH_MAX_MESSAGES;
                let batch = MessageBatch { messages };
                if full {
                    (batch, BatchStep::Full)
                } else {
                    (batch, BatchStep::Wait)
                }
            },
            ConversationEvent::InternalTrigger(trigger) => (
                self,
                BatchStep::EndBefore(ConversationEvent::InternalTrigger(trigger)),
            ),
        }
    }

    /// The messages of the batch.
    pub fn done(self) -> (r: Vec<IncomingMessage>)
        ensures
            r@ == self@,
            1 <= r@.len() <= MESSAGE_BATCH_MAX_MESSAGES,
    {
        proof {
            use_type_invariant(&self);
        }
        self.messages
    }
}

/// Does what only the conversation itself can do once a command has run, and tells whether the
/// conversation was reset: then the filter has seen nothing and messages do not pass it unasked.
pub fn apply_command_output(
    output: &CommandOutput,
    filter: &mut ConversationFilter,
    control: &mut ConversationControl,
) -> (reset: bool)
    ensures
        reset == (output.runtime_action == CommandRuntimeAction::ResetConversation),
        !reset ==> *final(filter) == *old(filter) && *final(control) == *old(control),
        reset ==> final(filter).filter_context@.len() == 0
            && final(filter).last_filter_message_id is None && !final(control)@,
{
    match output.runtime_action {
        CommandRuntimeAction::Nothing => false,
        CommandRuntimeAction::ResetConversation => {
            filter.reset_conversation_state();
            proof {
                let shown = crate::ai_provider::context_view(filter.filter_context@);
                assert(shown.len() == filter.filter_context@.len());
            }
            control.set_ai_filter_bypassed(false);
            true
        },
    }
}

} // verus!
