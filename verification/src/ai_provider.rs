//! Messages to and from a model, in the form that all providers share.

pub mod anthropic;
pub mod chat_wire;
pub mod gemini;
pub mod google_aistudio;
pub mod openai_compatible;
pub mod openai_responses;
pub mod openrouter;

use vstd::prelude::*;

use crate::json::{option_text, Json, JsonView};
use crate::tools::{calls_view, copy_calls, ToolCall, ToolCallView, ToolResult};

verus! {

#[derive(Debug, Clone, Copy, PartialEq, Eq, Structural)]
pub enum MessageRole {
    System,
    User,
    Assistant,
}

/// A message with a role and nothing but text.
#[derive(Debug, PartialEq, Eq)]
pub struct ContextMessage {
    pub role: MessageRole,
    pub content: String,
}

/// What a text message holds.
pub struct ContextMessageView {
    pub role: MessageRole,
    pub content: Seq<char>,
}

impl View for ContextMessage {
    type V = ContextMessageView;

    open spec fn view(&self) -> ContextMessageView {
        ContextMessageView { role: self.role, content: self.content@ }
    }
}

/// The text messages of a list.
pub open spec fn context_view(messages: Seq<ContextMessage>) -> Seq<ContextMessageView> {
    Seq::new(messages.len(), |i: int| messages[i]@)
}

/// The tokens that a request used.
#[derive(Debug, Clone, Copy, PartialEq, Eq, Structural)]
pub struct ChatUsage {
    pub prompt_tokens: Option<u64>,
    pub completion_tokens: Option<u64>,
    pub total_tokens: Option<u64>,
}

/// The reasoning that has to go back unchanged with the next request of a tool exchange.
#[derive(Debug, PartialEq)]
pub enum ReasoningPayload {
    Text(String),
    Structured(Json),
}

/// What a reasoning payload holds.
pub enum ReasoningView {
    Text(Seq<char>),
    Structured(JsonView),
}

impl View for ReasoningPayload {
    type V = ReasoningView;

    open spec fn view(&self) -> ReasoningView {
        match self {
            ReasoningPayload::Text(t) => ReasoningView::Text(t@),
            ReasoningPayload::Structured(v) => ReasoningView::Structured(v@),
        }
    }
}

impl Clone for ReasoningPayload {
    fn clone(&self) -> (r: ReasoningPayload)
        ensures
            r@ == self@,
    {
        match self {
            ReasoningPayload::Text(t) => ReasoningPayload::Text(t.clone()),
            ReasoningPayload::Structured(v) => ReasoningPayload::Structured(v.copy()),
        }
    }
}

/// What an optional payload holds.
pub open spec fn option_reasoning(r: Option<ReasoningPayload>) -> Option<ReasoningView> {
    match r {
        Some(p) => Some(p@),
        None => None,
    }
}

/// A copy of an optional payload.
pub fn copy_reasoning(r: &Option<ReasoningPayload>) -> (c: Option<ReasoningPayload>)
    ensures
        option_reasoning(c) == option_reasoning(*r),
{
    match r {
        Some(p) => Some(p.clone()),
        None => None,
    }
}

/// Reasoning as it is shown in logs, and as it goes back to the provider.
#[derive(Debug, PartialEq)]
pub struct ReasoningState {
    pub display_text: Option<String>,
    pub replay: Option<ReasoningPayload>,
}

/// What a reasoning state holds.
pub struct ReasoningStateView {
    pub display_text: Option<Seq<char>>,
    pub replay: Option<ReasoningView>,
}

impl View for ReasoningState {
    type V = ReasoningStateView;

    open spec fn view(&self) -> ReasoningStateView {
        ReasoningStateView {
            display_text: option_text(self.display_text),
            replay: option_reasoning(self.replay),
        }
    }
}

/// A piece of a user message.
#[derive(Debug, PartialEq, Eq)]
pub enum ToolChatContentPart {
    Text { text: String },
    Image { data_url: String },
}

/// What a piece of a user message holds.
pub enum PartView {
    Text(Seq<char>),
    Image(Seq<char>),
}

impl View for ToolChatContentPart {
    type V = PartView;

    open spec fn view(&self) -> PartView {
        match self {
            ToolChatContentPart::Text { text } => PartView::Text(text@),
            ToolChatContentPart::Image { data_url } => PartView::Image(data_url@),
        }
    }
}

impl Clone for ToolChatContentPart {
    fn clone(&self) -> (r: ToolChatContentPart)
        ensures
            r@ == self@,
    {
        match self {
            ToolChatContentPart::Text { text } => ToolChatContentPart::Text { text: text.clone() },
            ToolChatContentPart::Image { data_url } => ToolChatContentPart::Image {
                data_url: data_url.clone(),
            },
        }
    }
}

/// The pieces of a list.
pub open spec fn parts_view(parts: Seq<ToolChatContentPart>) -> Seq<PartView> {
    Seq::new(parts.len(), |i: int| parts[i]@)
}

/// A user message: its pieces in order.
#[derive(Debug, PartialEq, Eq)]
pub struct ToolChatUserContent {
    parts: Vec<ToolChatContentPart>,
}

impl View for ToolChatUserContent {
    type V = Seq<PartView>;

    closed spec fn view(&self) -> Seq<PartView> {
        parts_view(self.parts@)
    }
}

/// Pieces with `text` behind them: adjacent texts are one piece.
pub open spec fn with_text(parts: Seq<PartView>, text: Seq<char>) -> Seq<PartView> {
    if parts.len() > 0 && parts.last() is Text {
        parts.drop_last().push(PartView::Text(parts.last()->Text_0 + text))
    } else {
        parts.push(PartView::Text(text))
    }
}

/// The text of a message that is one piece of text and nothing else.
pub open spec fn only_text(parts: Seq<PartView>) -> Option<Seq<char>> {
    if parts.len() == 1 && parts[0] is Text {
        Some(parts[0]->Text_0)
    } else {
        None
    }
}

impl ToolChatUserContent {
    /// One piece of text.
    pub fn text(content: &str) -> (r: ToolChatUserContent)
        ensures
            r@ == seq![PartView::Text(content@)],
    {
        let mut parts: Vec<ToolChatContentPart> = Vec::new();
        parts.push(ToolChatContentPart::Text { text: content.to_owned() });
        let r = ToolChatUserContent { parts };
        assert(r@ =~= seq![PartView::Text(content@)]);
        r
    }

    /// The given pieces.
    pub fn from_parts(parts: Vec<ToolChatContentPart>) -> (r: ToolChatUserContent)
        ensures
            r@ == parts_view(parts@),
    {
        ToolChatUserContent { parts }
    }

    /// Appends text, to the last piece where that is a text.
    pub fn push_text(&mut self, text: &str)
        ensures
            final(self)@ == with_text(old(self)@, text@),
    {
        let extended: Option<String> = match self.parts.last() {
            Some(ToolChatContentPart::Text { text: content }) => {
                let mut longer = content.clone();
                longer.push_str(text);
                Some(longer)
            },
            _ => None,
        };
        match extended {
            Some(longer) => {
                self.parts.pop();
                self.parts.push(ToolChatContentPart::Text { text: longer });
            },
            None => {
                self.parts.push(ToolChatContentPart::Text { text: text.to_owned() });
            },
        }
        assert(self@ =~= with_text(old(self)@, text@));
    }

    /// Appends an image.
    pub fn push_image(&mut self, data_url: String)
        ensures
            final(self)@ == old(self)@.push(PartView::Image(data_url@)),
    {
        self.parts.push(ToolChatContentPart::Image { data_url });
        assert(self@ =~= old(self)@.push(PartView::Image(data_url@)));
    }

    /// The text, where the message is one piece of text and nothing else.
    pub fn as_text(&self) -> (r: Option<&str>)
        ensures
            match r {
                Some(t) => only_text(self@) == Some(t@),
                None => only_text(self@) is None,
            },
    {
        if self.parts.len() != 1 {
            return None;
        }
        match &self.parts[0] {
            ToolChatContentPart::Text { text } => {
                assert(self@[0] == PartView::Text(text@));
                Some(text.as_str())
            },
            ToolChatContentPart::Image { data_url } => {
                assert(self@[0] == PartView::Image(data_url@));
                None
            },
        }
    }

    /// The pieces in order.
    pub fn parts(&self) -> (r: &Vec<ToolChatContentPart>)
        ensures
            parts_view(r@) == self@,
    {
        &self.parts
    }
}

impl Clone for ToolChatUserContent {
    fn clone(&self) -> (r: ToolChatUserContent)
        ensures
            r@ == self@,
    {
        let mut parts: Vec<ToolChatContentPart> = Vec::new();
        let mut i: usize = 0;
        while i < self.parts.len()
            invariant
                i <= self.parts@.len(),
                parts_view(parts@) =~= self@.take(i as int),
            decreases self.parts@.len() - i,
        {
            parts.push(self.parts[i].clone());
            assert(self@.take(i + 1) =~= self@.take(i as int).push(self@[i as int]));
            i += 1;
        }
        assert(self@.take(i as int) =~= self@);
        ToolChatUserContent { parts }
    }
}

/// A message of a conversation in which tools may be used.
#[derive(Debug, PartialEq)]
#[allow(inconsistent_fields)]
pub enum ToolChatMessage {
    System { content: String },
    User { content: ToolChatUserContent },
    Assistant {
        content: Option<String>,
        reasoning: Option<ReasoningPayload>,
        tool_calls: Vec<ToolCall>,
    },
    Tool { tool_call_id: String, content: String },
}

/// What a message holds.
#[allow(inconsistent_fields)]
pub enum MessageView {
    System { content: Seq<char> },
    User { content: Seq<PartView> },
    Assistant {
        content: Option<Seq<char>>,
        reasoning: Option<ReasoningView>,
        tool_calls: Seq<ToolCallView>,
    },
    Tool { tool_call_id: Seq<char>, content: Seq<char> },
}

impl View for ToolChatMessage {
    type V = MessageView;

    open spec fn view(&self) -> MessageView {
        match self {
            ToolChatMessage::System { content } => MessageView::System { content: content@ },
            ToolChatMessage::User { content } => MessageView::User { content: content@ },
            ToolChatMessage::Assistant { content, reasoning, tool_calls } => MessageView::Assistant {
                content: option_text(*content),
                reasoning: option_reasoning(*reasoning),
                tool_calls: calls_view(tool_calls@),
            },
            ToolChatMessage::Tool { tool_call_id, content } => MessageView::Tool {
                tool_call_id: tool_call_id@,
                content: content@,
            },
        }
    }
}

/// The messages of a list.
pub open spec fn messages_view(messages: Seq<ToolChatMessage>) -> Seq<MessageView> {
    Seq::new(messages.len(), |i: int| messages[i]@)
}

impl Clone for ToolChatMessage {
    fn clone(&self) -> (r: ToolChatMessage)
        ensures
            r@ == self@,
    {
        match self {
            ToolChatMessage::System { content } => ToolChatMessage::System {
                content: content.clone(),
            },
            ToolChatMessage::User { content } => ToolChatMessage::User { content: content.clone() },
            ToolChatMessage::Assistant { content, reasoning, tool_calls } => {
                ToolChatMessage::Assistant {
                    content: content.clone(),
                    reasoning: copy_reasoning(reasoning),
                    tool_calls: copy_calls(tool_calls),
                }
            },
            ToolChatMessage::Tool { tool_call_id, content } => ToolChatMessage::Tool {
                tool_call_id: tool_call_id.clone(),
                content: content.clone(),
            },
        }
    }
}

/// Appends copies of messages.
pub fn append_messages(messages: &mut Vec<ToolChatMessage>, more: &Vec<ToolChatMessage>)
    ensures
        messages_view(final(messages)@) == messages_view(old(messages)@) + messages_view(more@),
{
    let ghost before = messages_view(messages@);
    let ghost added = messages_view(more@);
    let mut i: usize = 0;
    while i < more.len()
        invariant
            i <= more@.len(),
            added == messages_view(more@),
            messages_view(messages@) =~= before + added.take(i as int),
        decreases more@.len() - i,
    {
        let ghost prior = messages_view(messages@);
        let one = more[i].clone();
        messages.push(one);
        assert(messages_view(messages@) =~= prior.push(added[i as int]));
        assert(added.take(i + 1) =~= added.take(i as int).push(added[i as int]));
        i += 1;
    }
    assert(added.take(i as int) =~= added);
}

/// Appends a message.
pub fn push_message(messages: &mut Vec<ToolChatMessage>, message: ToolChatMessage)
    ensures
        messages_view(final(messages)@) == messages_view(old(messages)@).push(message@),
{
    messages.push(message);
    assert(messages_view(messages@) =~= messages_view(old(messages)@).push(message@));
}

/// The message that a text message stands for.
pub open spec fn message_of_context(message: ContextMessageView) -> MessageView {
    match message.role {
        MessageRole::System => MessageView::System { content: message.content },
        MessageRole::User => MessageView::User { content: seq![PartView::Text(message.content)] },
        MessageRole::Assistant => MessageView::Assistant {
            content: Some(message.content),
            reasoning: None,
            tool_calls: Seq::empty(),
        },
    }
}

impl From<&ContextMessage> for ToolChatMessage {
    fn from(message: &ContextMessage) -> (r: ToolChatMessage)
        ensures
            r@ == message_of_context(message@),
    {
        match message.role {
            MessageRole::System => ToolChatMessage::System { content: message.content.clone() },
            MessageRole::User => ToolChatMessage::User {
                content: ToolChatUserContent::text(&message.content),
            },
            MessageRole::Assistant => {
                let tool_calls: Vec<ToolCall> = Vec::new();
                assert(calls_view(tool_calls@) =~= Seq::empty());
                ToolChatMessage::Assistant {
                    content: Some(message.content.clone()),
                    reasoning: None,
                    tool_calls,
                }
            },
        }
    }
}

impl vstd::std_specs::convert::FromSpecImpl<&ContextMessage> for ToolChatMessage {
    open spec fn obeys_from_spec() -> bool {
        false
    }

    open spec fn from_spec(message: &ContextMessage) -> ToolChatMessage {
        arbitrary()
    }
}

impl From<&ToolResult> for ToolChatMessage {
    fn from(result: &ToolResult) -> (r: ToolChatMessage)
        ensures
            r@ == (MessageView::Tool {
                tool_call_id: result.tool_call_id@,
                content: result.content@,
            }),
    {
        ToolChatMessage::Tool {
            tool_call_id: result.tool_call_id.clone(),
            content: result.content.clone(),
        }
    }
}

impl vstd::std_specs::convert::FromSpecImpl<&ToolResult> for ToolChatMessage {
    open spec fn obeys_from_spec() -> bool {
        false
    }

    open spec fn from_spec(result: &ToolResult) -> ToolChatMessage {
        arbitrary()
    }
}

/// A reply of a model.
#[derive(Debug, PartialEq)]
pub struct ToolChatResponse {
    pub content: Option<String>,
    pub reasoning: ReasoningState,
    pub tool_calls: Vec<ToolCall>,
    pub finish_reason: Option<String>,
    pub id: Option<String>,
    pub model: Option<String>,
    pub usage: Option<ChatUsage>,
    pub raw_response: Json,
}

/// What a reply holds.
pub struct ResponseView {
    pub content: Option<Seq<char>>,
    pub reasoning: ReasoningStateView,
    pub tool_calls: Seq<ToolCallView>,
    pub finish_reason: Option<Seq<char>>,
    pub id: Option<Seq<char>>,
    pub model: Option<Seq<char>>,
    pub usage: Option<ChatUsage>,
    pub raw_response: JsonView,
}

impl View for ToolChatResponse {
    type V = ResponseView;

    open spec fn view(&self) -> ResponseView {
        ResponseView {
            content: option_text(self.content),
            reasoning: self.reasoning@,
            tool_calls: calls_view(self.tool_calls@),
            finish_reason: option_text(self.finish_reason),
            id: option_text(self.id),
            model: option_text(self.model),
            usage: self.usage,
            raw_response: self.raw_response@,
        }
    }
}

/// A reply of a model that knows no tools.
#[derive(Debug, PartialEq)]
pub struct ChatResponse {
    pub content: String,
    pub reasoning: ReasoningState,
    pub finish_reason: Option<String>,
    pub id: Option<String>,
    pub model: Option<String>,
    pub usage: Option<ChatUsage>,
    pub raw_response: Json,
}

/// What a reply without tools holds.
pub struct ChatResponseView {
    pub content: Seq<char>,
    pub reasoning: ReasoningStateView,
    pub finish_reason: Option<Seq<char>>,
    pub id: Option<Seq<char>>,
    pub model: Option<Seq<char>>,
    pub usage: Option<ChatUsage>,
    pub raw_response: JsonView,
}

impl View for ChatResponse {
    type V = ChatResponseView;

    open spec fn view(&self) -> ChatResponseView {
        ChatResponseView {
            content: self.content@,
            reasoning: self.reasoning@,
            finish_reason: option_text(self.finish_reason),
            id: option_text(self.id),
            model: option_text(self.model),
            usage: self.usage,
            raw_response: self.raw_response@,
        }
    }
}

impl ResponseView {
    /// The message that repeats a reply in the next request.
    pub open spec fn as_message(self) -> MessageView {
        MessageView::Assistant {
            content: self.content,
            reasoning: self.reasoning.replay,
            tool_calls: self.tool_calls,
        }
    }
}

impl ToolChatResponse {
    /// The message that repeats this reply in the next request.
    pub fn assistant_message(&self) -> (r: ToolChatMessage)
        ensures
            r@ == self@.as_message(),
    {
        ToolChatMessage::Assistant {
            content: self.content.clone(),
            reasoning: copy_reasoning(&self.reasoning.replay),
            tool_calls: copy_calls(&self.tool_calls),
        }
    }
}

/// Why messages cannot go to a provider that knows no tools.
#[derive(Debug, Clone, Copy, PartialEq, Eq, Structural)]
pub enum PlainMessageError {
    /// A user message with more than one piece of text.
    MultimodalUser,
    /// A message of the assistant with neither text nor tool calls.
    MissingContent,
    /// A tool call or a tool result.
    ToolHistory,
}

/// The text message that a message is, for a provider that knows no tools.
pub open spec fn plain_message(message: MessageView) -> Result<
    ContextMessageView,
    PlainMessageError,
> {
    match message {
        MessageView::System { content } => Ok(
            ContextMessageView { role: MessageRole::System, content },
        ),
        MessageView::User { content } => match only_text(content) {
            Some(text) => Ok(ContextMessageView { role: MessageRole::User, content: text }),
            None => Err(PlainMessageError::MultimodalUser),
        },
        MessageView::Assistant { content, reasoning, tool_calls } => if tool_calls.len() == 0 {
            match content {
                Some(text) => Ok(
                    ContextMessageView { role: MessageRole::Assistant, content: text },
                ),
                None => Err(PlainMessageError::MissingContent),
            }
        } else {
            Err(PlainMessageError::ToolHistory)
        },
        MessageView::Tool { tool_call_id, content } => Err(PlainMessageError::ToolHistory),
    }
}

/// The text messages that messages are, or the first reason why one is none.
pub open spec fn plain_messages(messages: Seq<MessageView>) -> Result<
    Seq<ContextMessageView>,
    PlainMessageError,
>
    decreases messages.len(),
{
    if messages.len() == 0 {
        Ok(Seq::empty())
    } else {
        match plain_messages(messages.drop_last()) {
            Err(e) => Err(e),
            Ok(front) => match plain_message(messages.last()) {
                Ok(m) => Ok(front.push(m)),
                Err(e) => Err(e),
            },
        }
    }
}

/// The text message that a message is, for a provider that knows no tools.
fn context_message_of(message: &ToolChatMessage) -> (r: Result<ContextMessage, PlainMessageError>)
    ensures
        match r {
            Ok(m) => plain_message(message@) == Ok::<_, PlainMessageError>(m@),
            Err(e) => plain_message(message@) == Err::<ContextMessageView, _>(e),
        },
{
    match message {
        ToolChatMessage::System { content } => Ok(
            ContextMessage { role: MessageRole::System, content: content.clone() },
        ),
        ToolChatMessage::User { content } => match content.as_text() {
            Some(text) => Ok(ContextMessage { role: MessageRole::User, content: text.to_owned() }),
            None => Err(PlainMessageError::MultimodalUser),
        },
        ToolChatMessage::Assistant { content, tool_calls, .. } => {
            if tool_calls.len() == 0 {
                match content {
                    Some(text) => Ok(
                        ContextMessage { role: MessageRole::Assistant, content: text.clone() },
                    ),
                    None => Err(PlainMessageError::MissingContent),
                }
            } else {
                Err(PlainMessageError::ToolHistory)
            }
        },
        ToolChatMessage::Tool { .. } => Err(PlainMessageError::ToolHistory),
    }
}

/// An error in the front part is the error of the whole.
proof fn lemma_plain_error(messages: Seq<MessageView>, n: int)
    requires
        0 <= n <= messages.len(),
        plain_messages(messages.take(n)) is Err,
    ensures
        plain_messages(messages) == plain_messages(messages.take(n)),
    decreases messages.len() - n,
{
    if n < messages.len() {
        assert(messages.take(n + 1).drop_last() =~= messages.take(n));
        lemma_plain_error(messages, n + 1);
    } else {
        assert(messages.take(n) =~= messages);
    }
}

/// The text messages that messages are, for a provider that knows no tools; the first message
/// that is none decides the error.
pub fn context_messages_without_tools(messages: &Vec<ToolChatMessage>) -> (r: Result<
    Vec<ContextMessage>,
    PlainMessageError,
>)
    ensures
        match r {
            Ok(list) => plain_messages(messages_view(messages@)) == Ok::<_, PlainMessageError>(
                context_view(list@),
            ),
            Err(e) => plain_messages(messages_view(messages@)) == Err::<
                Seq<ContextMessageView>,
                _,
            >(e),
        },
{
    let mut list: Vec<ContextMessage> = Vec::new();
    let ghost all = messages_view(messages@);
    let mut i: usize = 0;
    assert(context_view(list@) =~= Seq::empty());
    while i < messages.len()
        invariant
            i <= messages@.len(),
            all == messages_view(messages@),
            plain_messages(all.take(i as int)) == Ok::<_, PlainMessageError>(context_view(list@)),
        decreases messages@.len() - i,
    {
        proof {
            assert(all.take(i + 1).drop_last() =~= all.take(i as int));
            assert(all.take(i + 1).last() == messages@[i as int]@);
        }
        match context_message_of(&messages[i]) {
            Ok(m) => {
                let ghost before = context_view(list@);
                list.push(m);
                assert(context_view(list@) =~= before.push(m@));
            },
            Err(e) => {
                proof {
                    lemma_plain_error(all, i + 1);
                }
                return Err(e);
            },
        }
        i += 1;
    }
    assert(all.take(i as int) =~= all);
    Ok(list)
}

/// Messages that are nothing but text keep their roles and their texts, one by one.
pub proof fn law_text_messages_keep_their_texts(
    messages: Seq<MessageView>,
    plain: Seq<ContextMessageView>,
)
    requires
        plain_messages(messages) == Ok::<_, PlainMessageError>(plain),
    ensures
        plain.len() == messages.len(),
        forall|i: int|
            0 <= i < messages.len() ==> match #[trigger] messages[i] {
                MessageView::System { content } => plain[i].role == MessageRole::System
                    && plain[i].content == content,
                MessageView::User { content } => plain[i].role == MessageRole::User && content
                    == seq![PartView::Text(plain[i].content)],
                MessageView::Assistant { content, reasoning, tool_calls } => plain[i].role
                    == MessageRole::Assistant && content == Some(plain[i].content)
                    && tool_calls.len() == 0,
                MessageView::Tool { tool_call_id, content } => false,
            },
    decreases messages.len(),
{
    if messages.len() > 0 {
        let front = messages.drop_last();
        assert(plain.drop_last() =~= plain_messages(front)->Ok_0);
        law_text_messages_keep_their_texts(front, plain.drop_last());
        assert forall|i: int| 0 <= i < messages.len() implies match #[trigger] messages[i] {
            MessageView::System { content } => plain[i].role == MessageRole::System
                && plain[i].content == content,
            MessageView::User { content } => plain[i].role == MessageRole::User && content == seq![
                PartView::Text(plain[i].content),
            ],
            MessageView::Assistant { content, reasoning, tool_calls } => plain[i].role
                == MessageRole::Assistant && content == Some(plain[i].content)
                && tool_calls.len() == 0,
            MessageView::Tool { tool_call_id, content } => false,
        } by {
            if i < front.len() {
                assert(front[i] == messages[i]);
                assert(plain.drop_last()[i] == plain[i]);
            } else if let MessageView::User { content } = messages[i] {
                assert(content =~= seq![PartView::Text(plain[i].content)]);
            }
        }
    }
}

} // verus!
