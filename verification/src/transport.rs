//! Messages as chat platforms deliver them, and where replies go.

use vstd::prelude::*;

use crate::json::{option_text, Json};
use crate::text::{blank, is_blank};

verus! {

/// The kind of a conversation.
#[derive(Debug, Clone, Copy, PartialEq, Eq, Structural)]
pub enum ConversationKind {
    Direct,
    Group,
}

/// The word for a kind of conversation.
pub open spec fn kind_word(kind: ConversationKind) -> Seq<char> {
    match kind {
        ConversationKind::Direct => "direct"@,
        ConversationKind::Group => "group"@,
    }
}

/// The word for a kind of conversation.
pub fn conversation_kind_as_str(kind: ConversationKind) -> (r: &'static str)
    ensures
        r@ == kind_word(kind),
{
    match kind {
        ConversationKind::Direct => "direct",
        ConversationKind::Group => "group",
    }
}

/// A conversation on a platform.
#[derive(Debug, PartialEq, Eq)]
pub struct Conversation {
    pub id: String,
    pub kind: ConversationKind,
    pub title: Option<String>,
}

impl Clone for Conversation {
    fn clone(&self) -> (r: Conversation)
        ensures
            r == *self,
    {
        Conversation { id: self.id.clone(), kind: self.kind, title: self.title.clone() }
    }
}

/// Who sent a message.
#[derive(Debug, PartialEq, Eq)]
pub struct Sender {
    pub id: String,
    pub display_name: String,
    pub nickname: Option<String>,
    pub role: Option<String>,
}

/// A piece of a message, such as an image or a mention.
#[derive(Debug, PartialEq)]
pub struct ContentPart {
    pub kind: String,
    pub data: Json,
}

/// The text of a message and its pieces.
#[derive(Debug, PartialEq)]
pub struct MessageContent {
    pub text: String,
    pub parts: Vec<ContentPart>,
}

/// A message that came in.
#[derive(Debug, PartialEq)]
pub struct IncomingMessage {
    pub source: String,
    pub bot_id: String,
    pub message_id: Option<String>,
    pub conversation: Conversation,
    pub sender: Sender,
    pub content: MessageContent,
    pub metadata: Json,
    pub timestamp: i64,
}

/// Where a reply goes.
#[derive(Debug, PartialEq, Eq)]
pub struct MessageTarget {
    pub source: String,
    pub bot_id: String,
    pub conversation: Conversation,
}

impl Clone for MessageTarget {
    fn clone(&self) -> (r: MessageTarget)
        ensures
            r == *self,
    {
        MessageTarget {
            source: self.source.clone(),
            bot_id: self.bot_id.clone(),
            conversation: self.conversation.clone(),
        }
    }
}

/// The name to call somebody by: their own, or the one in the group where that is blank.
pub open spec fn called(display_name: Seq<char>, nickname: Option<Seq<char>>) -> Seq<char> {
    match nickname {
        Some(name) => if is_blank(name) {
            display_name
        } else {
            name
        },
        None => display_name,
    }
}

/// The name to call somebody by: their own, or the one in the group where that is blank.
pub fn preferred_sender_name(display_name: &str, nickname: &Option<String>) -> (r: String)
    ensures
        r@ == called(display_name@, option_text(*nickname)),
{
    match nickname {
        Some(name) => {
            if blank(name) {
                display_name.to_owned()
            } else {
                name.clone()
            }
        },
        None => display_name.to_owned(),
    }
}

/// Where a reply to a message goes.
pub open spec fn target_of(message: IncomingMessage) -> MessageTarget {
    MessageTarget {
        source: message.source,
        bot_id: message.bot_id,
        conversation: message.conversation,
    }
}

/// Where a reply to a message goes.
pub fn reply_target(message: &IncomingMessage) -> (r: MessageTarget)
    ensures
        r == target_of(*message),
{
    MessageTarget {
        source: message.source.clone(),
        bot_id: message.bot_id.clone(),
        conversation: message.conversation.clone(),
    }
}

} // verus!
