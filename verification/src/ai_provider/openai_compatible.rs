//! Chat completion servers that follow the OpenAI interface.

use vstd::prelude::*;

use crate::ai_provider::chat_wire::{
    calls_are_of, calls_to_wire, choice_to_wire, function_calls, holds_message, holds_parts,
    is_object, lemma_calls_are_of, lemma_holds_calls, lemma_more_fields, lemma_object2,
    lemma_object3, lemma_offers_tools, lemma_usage_is_of, lemma_wire_names, message_calls,
    offers_tools, optional_text, optional_usage, read_message_calls, read_optional_text, read_usage,
    take_function_calls, text_or_null, text_or_null_json, tools_to_wire, usage_is_of, wire_calls,
    wire_calls_view, wire_choice, wire_tools, WireCall, WireCallView,
};
use crate::ai_provider::{
    messages_view, only_text, parts_view, ChatUsage, MessageView, PartView, ReasoningPayload,
    ReasoningState, ReasoningStateView, ReasoningView, ResponseView, ToolChatContentPart,
    ToolChatMessage, ToolChatResponse, ToolChatUserContent,
};
use crate::json::{
    int_view, is_text, items_view, json_read, lemma_field_at, lemma_no_field, named, object1,
    object2, object3, object4, option_text, read_json, with_field, with_names, Fields, Items, Json,
    JsonView,
};
use crate::text::{is_blank, quote_option, quoted_option, trim, trim_of};
use crate::tools::{definitions_view, ToolDefinition, ToolDefinitionView};

verus! {

/// How hard a model reasons over an image.
pub const VISION_REASONING_EFFORT: &'static str = "minimal";

/// How much context a web search uses.
pub const WEB_SEARCH_CONTEXT_SIZE: &'static str = "medium";

/// A piece of a user message.
pub open spec fn content_part(part: PartView) -> JsonView {
    match part {
        PartView::Text(text) => object2(
            "type"@,
            JsonView::Text("text"@),
            "text"@,
            JsonView::Text(text),
        ),
        PartView::Image(data_url) => object2(
            "type"@,
            JsonView::Text("image_url"@),
            "image_url"@,
            object2("url"@, JsonView::Text(data_url), "detail"@, JsonView::Text("high"@)),
        ),
    }
}

/// The content of a user message: a plain text where it is nothing else, otherwise its pieces.
pub open spec fn user_content(parts: Seq<PartView>) -> JsonView {
    match only_text(parts) {
        Some(text) => JsonView::Text(text),
        None => JsonView::Array(Seq::new(parts.len(), |i: int| content_part(parts[i]))),
    }
}

/// The content of a user message: a plain text where it is nothing else, otherwise its pieces.
pub fn openai_user_content(content: &ToolChatUserContent) -> (r: Json)
    ensures
        r@ == user_content(content@),
{
    if let Some(text) = content.as_text() {
        return Json::text(text);
    }
    let parts = content.parts();
    let ghost listed = Seq::new(content@.len(), |i: int| content_part(content@[i]));
    let mut items = Items::new();
    let mut i: usize = 0;
    while i < parts.len()
        invariant
            i <= parts@.len(),
            parts_view(parts@) == content@,
            listed == Seq::new(content@.len(), |i: int| content_part(content@[i])),
            items@ == listed.take(i as int),
        decreases parts@.len() - i,
    {
        assert(content@[i as int] == parts@[i as int]@);
        let mut fields = Fields::new();
        match &parts[i] {
            ToolChatContentPart::Text { text } => {
                fields.put_text("type", "text");
                fields.put_text("text", text);
            },
            ToolChatContentPart::Image { data_url } => {
                let mut image = Fields::new();
                image.put_text("url", data_url);
                image.put_text("detail", "high");
                fields.put_text("type", "image_url");
                fields.put("image_url", image.done());
            },
        }
        items.push(fields.done());
        assert(listed.take(i + 1) =~= listed.take(i as int).push(listed[i as int]));
        i += 1;
    }
    assert(listed.take(i as int) =~= listed);
    items.done()
}

/// The reasoning text that goes back with a message.
pub open spec fn reasoning_text(reasoning: Option<ReasoningView>) -> Option<JsonView> {
    match reasoning {
        Some(ReasoningView::Text(text)) => Some(JsonView::Text(text)),
        _ => None,
    }
}

/// A message of a request.
pub open spec fn wire_message(message: MessageView) -> JsonView {
    match message {
        MessageView::System { content } => object2(
            "role"@,
            JsonView::Text("system"@),
            "content"@,
            JsonView::Text(content),
        ),
        MessageView::User { content } => object2(
            "role"@,
            JsonView::Text("user"@),
            "content"@,
            user_content(content),
        ),
        MessageView::Assistant { content, reasoning, tool_calls } => JsonView::Object(
            with_field(
                with_field(
                    Seq::empty().push(("role"@, JsonView::Text("assistant"@))).push(
                        ("content"@, text_or_null(content)),
                    ),
                    "reasoning_content"@,
                    reasoning_text(reasoning),
                ),
                "tool_calls"@,
                wire_calls(tool_calls),
            ),
        ),
        MessageView::Tool { tool_call_id, content } => object3(
            "role"@,
            JsonView::Text("tool"@),
            "tool_call_id"@,
            JsonView::Text(tool_call_id),
            "content"@,
            JsonView::Text(content),
        ),
    }
}

/// A message of a request.
fn message_to_wire(message: &ToolChatMessage) -> (r: Json)
    ensures
        r@ == wire_message(message@),
{
    let mut fields = Fields::new();
    match message {
        ToolChatMessage::System { content } => {
            fields.put_text("role", "system");
            fields.put_text("content", content);
        },
        ToolChatMessage::User { content } => {
            fields.put_text("role", "user");
            fields.put("content", openai_user_content(content));
        },
        ToolChatMessage::Assistant { content, reasoning, tool_calls } => {
            fields.put_text("role", "assistant");
            fields.put("content", text_or_null_json(content));
            if let Some(ReasoningPayload::Text(text)) = reasoning {
                fields.put_text("reasoning_content", text);
            }
            fields.put_some("tool_calls", calls_to_wire(tool_calls));
        },
        ToolChatMessage::Tool { tool_call_id, content } => {
            fields.put_text("role", "tool");
            fields.put_text("tool_call_id", tool_call_id);
            fields.put_text("content", content);
        },
    }
    fields.done()
}

/// The messages of a request.
pub open spec fn wire_messages(messages: Seq<MessageView>) -> JsonView {
    JsonView::Array(Seq::new(messages.len(), |i: int| wire_message(messages[i])))
}

/// The messages of a request.
fn messages_to_wire(messages: &Vec<ToolChatMessage>) -> (r: Json)
    ensures
        r@ == wire_messages(messages_view(messages@)),
{
    let ghost all = messages_view(messages@);
    let ghost listed = Seq::new(all.len(), |i: int| wire_message(all[i]));
    let mut items = Items::new();
    let mut i: usize = 0;
    while i < messages.len()
        invariant
            i <= messages@.len(),
            all == messages_view(messages@),
            listed == Seq::new(all.len(), |i: int| wire_message(all[i])),
            items@ == listed.take(i as int),
        decreases messages@.len() - i,
    {
        items.push(message_to_wire(&messages[i]));
        assert(listed.take(i + 1) =~= listed.take(i as int).push(listed[i as int]));
        i += 1;
    }
    assert(listed.take(i as int) =~= listed);
    items.done()
}

/// A chat request; without tools the fields for tools are left out.
pub open spec fn chat_request(
    model: Seq<char>,
    max_tokens: i32,
    effort: Seq<char>,
    messages: Seq<MessageView>,
    tools: Seq<ToolDefinitionView>,
) -> JsonView {
    let fields = Seq::empty().push(("model"@, JsonView::Text(model))).push(
        ("messages"@, wire_messages(messages)),
    ).push(("max_tokens"@, int_view(max_tokens as int))).push(
        ("reasoning_effort"@, JsonView::Text(effort)),
    );
    JsonView::Object(
        with_field(
            with_field(fields, "tools"@, wire_tools(tools)),
            "tool_choice"@,
            wire_choice(tools),
        ),
    )
}

/// A chat request; without tools the fields for tools are left out.
pub fn build_openai_compatible_request(
    model: &str,
    max_tokens: i32,
    reasoning_effort: &str,
    messages: &Vec<ToolChatMessage>,
    tools: &Vec<ToolDefinition>,
) -> (r: Json)
    ensures
        r@ == chat_request(
            model@,
            max_tokens,
            reasoning_effort@,
            messages_view(messages@),
            definitions_view(tools@),
        ),
{
    let mut fields = Fields::new();
    fields.put_text("model", model);
    fields.put("messages", messages_to_wire(messages));
    fields.put("max_tokens", Json::integer(max_tokens as i64));
    fields.put_text("reasoning_effort", reasoning_effort);
    fields.put_some("tools", tools_to_wire(tools));
    fields.put_some("tool_choice", choice_to_wire(tools));
    fields.done()
}

/// A request to describe an image.
pub open spec fn vision_request(
    model: Seq<char>,
    max_tokens: i32,
    image_data_url: Seq<char>,
    prompt: Seq<char>,
) -> JsonView {
    object4(
        "model"@,
        JsonView::Text(model),
        "messages"@,
        JsonView::Array(
            seq![
                object2(
                    "role"@,
                    JsonView::Text("user"@),
                    "content"@,
                    JsonView::Array(
                        Seq::empty().push(content_part(PartView::Text(prompt))).push(
                            content_part(PartView::Image(image_data_url)),
                        ),
                    ),
                ),
            ],
        ),
        "max_tokens"@,
        int_view(max_tokens as int),
        "reasoning_effort"@,
        JsonView::Text(VISION_REASONING_EFFORT@),
    )
}

/// A request to describe an image.
pub fn build_vision_request(
    model: &str,
    max_tokens: i32,
    image_data_url: &str,
    prompt: &str,
) -> (r: Json)
    ensures
        r@ == vision_request(model@, max_tokens, image_data_url@, prompt@),
{
    let mut text = Fields::new();
    text.put_text("type", "text");
    text.put_text("text", prompt);
    let mut image_url = Fields::new();
    image_url.put_text("url", image_data_url);
    image_url.put_text("detail", "high");
    let mut image = Fields::new();
    image.put_text("type", "image_url");
    image.put("image_url", image_url.done());
    let mut content = Items::new();
    content.push(text.done());
    content.push(image.done());
    let mut message = Fields::new();
    message.put_text("role", "user");
    message.put("content", content.done());
    let mut messages = Items::new();
    messages.push(message.done());
    let mut fields = Fields::new();
    fields.put_text("model", model);
    fields.put("messages", messages.done());
    fields.put("max_tokens", Json::integer(max_tokens as i64));
    fields.put_text("reasoning_effort", VISION_REASONING_EFFORT);
    fields.done()
}

/// A request to search the web.
pub open spec fn search_request(model: Seq<char>, question: Seq<char>) -> JsonView {
    object3(
        "model"@,
        JsonView::Text(model),
        "messages"@,
        JsonView::Array(
            seq![
                object2(
                    "role"@,
                    JsonView::Text("user"@),
                    "content"@,
                    JsonView::Text(question),
                ),
            ],
        ),
        "web_search_options"@,
        object1("search_context_size"@, JsonView::Text(WEB_SEARCH_CONTEXT_SIZE@)),
    )
}

/// A request to search the web.
pub fn build_web_search_request(model: &str, question: &str) -> (r: Json)
    ensures
        r@ == search_request(model@, question@),
{
    let mut message = Fields::new();
    message.put_text("role", "user");
    message.put_text("content", question);
    let mut messages = Items::new();
    messages.push(message.done());
    let mut options = Fields::new();
    options.put_text("search_context_size", WEB_SEARCH_CONTEXT_SIZE);
    let mut fields = Fields::new();
    fields.put_text("model", model);
    fields.put("messages", messages.done());
    fields.put("web_search_options", options.done());
    fields.done()
}

/// One of the answers in a reply.
#[derive(Debug, PartialEq, Eq)]
pub struct OpenAICompatibleChoice {
    pub index: u64,
    pub content: Option<String>,
    pub reasoning_content: Option<String>,
    pub tool_calls: Vec<WireCall>,
    pub finish_reason: Option<String>,
}

/// What an answer holds.
pub struct ChoiceView {
    pub index: u64,
    pub content: Option<Seq<char>>,
    pub reasoning_content: Option<Seq<char>>,
    pub tool_calls: Seq<WireCallView>,
    pub finish_reason: Option<Seq<char>>,
}

impl View for OpenAICompatibleChoice {
    type V = ChoiceView;

    open spec fn view(&self) -> ChoiceView {
        ChoiceView {
            index: self.index,
            content: option_text(self.content),
            reasoning_content: option_text(self.reasoning_content),
            tool_calls: wire_calls_view(self.tool_calls@),
            finish_reason: option_text(self.finish_reason),
        }
    }
}

/// The answers of a list.
pub open spec fn choices_view(choices: Seq<OpenAICompatibleChoice>) -> Seq<ChoiceView> {
    Seq::new(choices.len(), |i: int| choices[i]@)
}

/// A reply.
#[derive(Debug, PartialEq, Eq)]
pub struct OpenAICompatibleChatResponse {
    pub id: Option<String>,
    pub model: Option<String>,
    pub choices: Option<Vec<OpenAICompatibleChoice>>,
    pub usage: Option<ChatUsage>,
}

/// What a reply holds.
pub struct ReplyView {
    pub id: Option<Seq<char>>,
    pub model: Option<Seq<char>>,
    pub choices: Option<Seq<ChoiceView>>,
    pub usage: Option<ChatUsage>,
}

/// The answers of an optional list.
pub open spec fn option_choices(choices: Option<Vec<OpenAICompatibleChoice>>) -> Option<
    Seq<ChoiceView>,
> {
    match choices {
        Some(list) => Some(choices_view(list@)),
        None => None,
    }
}

impl View for OpenAICompatibleChatResponse {
    type V = ReplyView;

    open spec fn view(&self) -> ReplyView {
        ReplyView {
            id: option_text(self.id),
            model: option_text(self.model),
            choices: option_choices(self.choices),
            usage: self.usage,
        }
    }
}

/// The names of the fields of a reply, in the order in which a list holds them.
pub open spec fn reply_names() -> Seq<&'static str> {
    seq!["id", "model", "choices", "usage"]
}

/// The names of the fields of an answer, in the order in which a list holds them.
pub open spec fn choice_names() -> Seq<&'static str> {
    seq!["index", "message", "finish_reason"]
}

/// The names of the fields of a message, in the order in which a list holds them.
pub open spec fn message_names() -> Seq<&'static str> {
    seq!["role", "content", "reasoning_content", "tool_calls"]
}

/// An answer; nothing where it has another shape.
pub open spec fn choice_in(v: JsonView) -> Option<ChoiceView> {
    let choice = with_names(v, choice_names());
    match (
        choice.unsigned_field("index"@),
        choice.field("message"@),
        optional_text(choice, "finish_reason"@),
    ) {
        (Some(index), Some(found), Some(finish_reason)) => message_in(
            with_names(found, message_names()),
            index,
            finish_reason,
        ),
        _ => None,
    }
}

/// The message of an answer; nothing where it has another shape.
pub open spec fn message_in(
    message: JsonView,
    index: u64,
    finish_reason: Option<Seq<char>>,
) -> Option<ChoiceView> {
    if message is Object {
        match (
            optional_text(message, "role"@),
            optional_text(message, "content"@),
            optional_text(message, "reasoning_content"@),
            message_calls(message),
        ) {
            (Some(_), Some(content), Some(reasoning_content), Some(tool_calls)) => Some(
                ChoiceView { index, content, reasoning_content, tool_calls, finish_reason },
            ),
            _ => None,
        }
    } else {
        None
    }
}

/// An answer; nothing where it has another shape.
fn read_choice(v: &Json) -> (r: Option<OpenAICompatibleChoice>)
    ensures
        match r {
            Some(c) => choice_in(v@) == Some(c@),
            None => choice_in(v@) is None,
        },
{
    let names = vec!["index", "message", "finish_reason"];
    assert(names@ =~= choice_names());
    let choice = named(v, names);
    match (
        choice.unsigned_at("index"),
        choice.get("message"),
        read_optional_text(&choice, "finish_reason"),
    ) {
        (Some(index), Some(found), Some(finish_reason)) => {
            let names = vec!["role", "content", "reasoning_content", "tool_calls"];
            assert(names@ =~= message_names());
            let message = named(found, names);
            if !is_object(&message) {
                return None;
            }
            match (
                read_optional_text(&message, "role"),
                read_optional_text(&message, "content"),
                read_optional_text(&message, "reasoning_content"),
                read_message_calls(&message),
            ) {
                (Some(_), Some(content), Some(reasoning_content), Some(tool_calls)) => Some(
                    OpenAICompatibleChoice {
                        index,
                        content,
                        reasoning_content,
                        tool_calls,
                        finish_reason,
                    },
                ),
                _ => None,
            }
        },
        _ => None,
    }
}

/// The answers in a list; nothing where one has another shape.
pub open spec fn choices_in(items: Seq<JsonView>) -> Option<Seq<ChoiceView>>
    decreases items.len(),
{
    if items.len() == 0 {
        Some(Seq::empty())
    } else {
        match (choices_in(items.drop_last()), choice_in(items.last())) {
            (Some(front), Some(choice)) => Some(front.push(choice)),
            _ => None,
        }
    }
}

/// One answer of another shape spoils the list.
proof fn lemma_choices_in_none(items: Seq<JsonView>, n: int)
    requires
        0 <= n <= items.len(),
        choices_in(items.take(n)) is None,
    ensures
        choices_in(items) is None,
    decreases items.len() - n,
{
    if n < items.len() {
        assert(items.take(n + 1).drop_last() =~= items.take(n));
        lemma_choices_in_none(items, n + 1);
    } else {
        assert(items.take(n) =~= items);
    }
}

/// The answers in a list; nothing where one has another shape.
fn read_choices(items: &Vec<Json>) -> (r: Option<Vec<OpenAICompatibleChoice>>)
    ensures
        match r {
            Some(list) => choices_in(items_view(items@)) == Some(choices_view(list@)),
            None => choices_in(items_view(items@)) is None,
        },
{
    let mut list: Vec<OpenAICompatibleChoice> = Vec::new();
    assert(choices_view(list@) =~= Seq::empty());
    let ghost all = items_view(items@);
    let mut i: usize = 0;
    while i < items.len()
        invariant
            i <= items@.len(),
            all == items_view(items@),
            choices_in(all.take(i as int)) == Some(choices_view(list@)),
        decreases items@.len() - i,
    {
        proof {
            assert(all.take(i + 1).drop_last() =~= all.take(i as int));
            assert(all.take(i + 1).last() == items@[i as int]@);
        }
        match read_choice(&items[i]) {
            Some(choice) => {
                let ghost before = choices_view(list@);
                list.push(choice);
                assert(choices_view(list@) =~= before.push(choice@));
            },
            None => {
                proof {
                    lemma_choices_in_none(all, i + 1);
                }
                return None;
            },
        }
        i += 1;
    }
    assert(all.take(i as int) =~= all);
    Some(list)
}

/// The answers of a reply, none where the field is absent or null; nothing where they have
/// another shape.
pub open spec fn reply_choices(v: JsonView) -> Option<Option<Seq<ChoiceView>>> {
    match v.field("choices"@) {
        None => Some(None),
        Some(JsonView::Null) => Some(None),
        Some(JsonView::Array(items)) => match choices_in(items) {
            Some(list) => Some(Some(list)),
            None => None,
        },
        Some(_) => None,
    }
}

/// A reply; nothing where it has another shape.
pub open spec fn reply_in(v: JsonView) -> Option<ReplyView> {
    let reply = with_names(v, reply_names());
    if reply is Object {
        match (
            optional_text(reply, "id"@),
            optional_text(reply, "model"@),
            reply_choices(reply),
            optional_usage(reply),
        ) {
            (Some(id), Some(model), Some(choices), Some(usage)) => Some(
                ReplyView { id, model, choices, usage },
            ),
            _ => None,
        }
    } else {
        None
    }
}

/// The answers of a reply.
fn read_reply_choices(v: &Json) -> (r: Option<Option<Vec<OpenAICompatibleChoice>>>)
    ensures
        match r {
            Some(list) => reply_choices(v@) == Some(option_choices(list)),
            None => reply_choices(v@) is None,
        },
{
    match v.get("choices") {
        None => Some(None),
        Some(Json::Null) => Some(None),
        Some(found) => match found.as_array() {
            Some(items) => match read_choices(items) {
                Some(list) => Some(Some(list)),
                None => None,
            },
            None => None,
        },
    }
}

/// A reply; nothing where it has another shape.
pub fn read_reply(v: &Json) -> (r: Option<OpenAICompatibleChatResponse>)
    ensures
        match r {
            Some(reply) => reply_in(v@) == Some(reply@),
            None => reply_in(v@) is None,
        },
{
    let names = vec!["id", "model", "choices", "usage"];
    assert(names@ =~= reply_names());
    let reply = named(v, names);
    if !is_object(&reply) {
        return None;
    }
    match (
        read_optional_text(&reply, "id"),
        read_optional_text(&reply, "model"),
        read_reply_choices(&reply),
        read_usage(&reply),
    ) {
        (Some(id), Some(model), Some(choices), Some(usage)) => Some(
            OpenAICompatibleChatResponse { id, model, choices, usage },
        ),
        _ => None,
    }
}

/// Why a reply is not accepted.
#[derive(Debug, PartialEq, Eq)]
pub enum OpenAICompatibleError {
    /// The reply is no JSON, with what `serde_json` says of it, or not of the expected shape.
    Malformed { fault: Option<String> },
    MissingChoices,
    EmptyChoices,
    UnsupportedTool { kind: String },
    /// Neither text nor tool calls, and not a regular stop.
    Unfinished { finish_reason: Option<String> },
    EmptyAnswer,
}

/// What an error holds.
pub enum ErrorView {
    Malformed { fault: Option<Seq<char>> },
    MissingChoices,
    EmptyChoices,
    UnsupportedTool { kind: Seq<char> },
    Unfinished { finish_reason: Option<Seq<char>> },
    EmptyAnswer,
}

impl View for OpenAICompatibleError {
    type V = ErrorView;

    open spec fn view(&self) -> ErrorView {
        match self {
            OpenAICompatibleError::Malformed { fault } => ErrorView::Malformed {
                fault: option_text(*fault),
            },
            OpenAICompatibleError::MissingChoices => ErrorView::MissingChoices,
            OpenAICompatibleError::EmptyChoices => ErrorView::EmptyChoices,
            OpenAICompatibleError::UnsupportedTool { kind } => ErrorView::UnsupportedTool {
                kind: kind@,
            },
            OpenAICompatibleError::Unfinished { finish_reason } => ErrorView::Unfinished {
                finish_reason: option_text(*finish_reason),
            },
            OpenAICompatibleError::EmptyAnswer => ErrorView::EmptyAnswer,
        }
    }
}

/// An error in words, for the reply called `name`.
pub open spec fn error_text(error: ErrorView, name: Seq<char>) -> Seq<char> {
    match error {
        ErrorView::Malformed { fault: Some(fault) } => "解析"@ + name + "失败："@ + fault,
        ErrorView::Malformed { fault: None } => "解析"@ + name + "失败"@,
        ErrorView::MissingChoices => name
            + "缺少 choices 数组，可能是上游返回了 choices=null 或错误体。"@,
        ErrorView::EmptyChoices => name + "的 choices 为空。"@,
        ErrorView::UnsupportedTool { kind } => name + "包含不支持的工具类型："@ + kind,
        ErrorView::Unfinished { finish_reason } => name
            + "既没有文本内容，也没有 tool_calls，且 finish_reason 不是 stop（当前："@
            + quoted_option(finish_reason) + "）"@,
        ErrorView::EmptyAnswer => name + "内容为空"@,
    }
}

impl OpenAICompatibleError {
    /// The error in words, for the reply called `name`.
    pub fn message(&self, name: &str) -> (r: String)
        ensures
            r@ == error_text(self@, name@),
    {
        match self {
            OpenAICompatibleError::Malformed { fault } => {
                let mut r = "解析".to_owned();
                r.push_str(name);
                match fault {
                    Some(fault) => {
                        r.push_str("失败：");
                        r.push_str(fault);
                    },
                    None => r.push_str("失败"),
                }
                r
            },
            OpenAICompatibleError::MissingChoices => {
                let mut r = name.to_owned();
                r.push_str("缺少 choices 数组，可能是上游返回了 choices=null 或错误体。");
                r
            },
            OpenAICompatibleError::EmptyChoices => {
                let mut r = name.to_owned();
                r.push_str("的 choices 为空。");
                r
            },
            OpenAICompatibleError::UnsupportedTool { kind } => {
                let mut r = name.to_owned();
                r.push_str("包含不支持的工具类型：");
                r.push_str(kind);
                r
            },
            OpenAICompatibleError::Unfinished { finish_reason } => {
                let mut r = name.to_owned();
                r.push_str("既没有文本内容，也没有 tool_calls，且 finish_reason 不是 stop（当前：");
                r.push_str(&quote_option(finish_reason));
                r.push_str("）");
                r
            },
            OpenAICompatibleError::EmptyAnswer => {
                let mut r = name.to_owned();
                r.push_str("内容为空");
                r
            },
        }
    }
}

/// The first answer of a reply.
pub open spec fn first_choice_of(reply: ReplyView) -> Result<ChoiceView, ErrorView> {
    match reply.choices {
        None => Err(ErrorView::MissingChoices),
        Some(list) => if list.len() == 0 {
            Err(ErrorView::EmptyChoices)
        } else {
            Ok(list[0])
        },
    }
}

/// The first answer of a reply.
pub fn first_choice(response: &OpenAICompatibleChatResponse) -> (r: Result<
    &OpenAICompatibleChoice,
    OpenAICompatibleError,
>)
    ensures
        match r {
            Ok(c) => first_choice_of(response@) == Ok::<_, ErrorView>(c@),
            Err(e) => first_choice_of(response@) == Err::<ChoiceView, _>(e@),
        },
{
    match &response.choices {
        None => Err(OpenAICompatibleError::MissingChoices),
        Some(list) => {
            if list.len() == 0 {
                Err(OpenAICompatibleError::EmptyChoices)
            } else {
                Ok(&list[0])
            }
        },
    }
}

/// What a reply is read as: an empty answer counts where the model stopped by itself.
pub open spec fn response_of(reply: ReplyView, raw: JsonView) -> Result<ResponseView, ErrorView> {
    match first_choice_of(reply) {
        Err(e) => Err(e),
        Ok(choice) => match function_calls(choice.tool_calls) {
            Err(kind) => Err(ErrorView::UnsupportedTool { kind }),
            Ok(tool_calls) => if choice.content is None && tool_calls.len() == 0
                && choice.finish_reason != Some("stop"@) {
                Err(ErrorView::Unfinished { finish_reason: choice.finish_reason })
            } else {
                Ok(
                    ResponseView {
                        content: choice.content,
                        reasoning: ReasoningStateView {
                            display_text: choice.reasoning_content,
                            replay: match choice.reasoning_content {
                                Some(text) => Some(ReasoningView::Text(text)),
                                None => None,
                            },
                        },
                        tool_calls,
                        finish_reason: choice.finish_reason,
                        id: reply.id,
                        model: reply.model,
                        usage: reply.usage,
                        raw_response: raw,
                    },
                )
            },
        },
    }
}

/// What a reply is read as.
pub fn read_response(parsed: OpenAICompatibleChatResponse, raw_response: Json) -> (r: Result<
    ToolChatResponse,
    OpenAICompatibleError,
>)
    ensures
        match r {
            Ok(response) => response_of(parsed@, raw_response@) == Ok::<_, ErrorView>(response@),
            Err(e) => response_of(parsed@, raw_response@) == Err::<ResponseView, _>(e@),
        },
{
    let choice = match first_choice(&parsed) {
        Ok(choice) => choice,
        Err(e) => {
            return Err(e);
        },
    };
    let content = choice.content.clone();
    let display_text = choice.reasoning_content.clone();
    let replay = match &choice.reasoning_content {
        Some(text) => Some(ReasoningPayload::Text(text.clone())),
        None => None,
    };
    let finish_reason = choice.finish_reason.clone();
    let tool_calls = match take_function_calls(&choice.tool_calls) {
        Ok(calls) => calls,
        Err(kind) => {
            return Err(OpenAICompatibleError::UnsupportedTool { kind });
        },
    };
    if content.is_none() && tool_calls.len() == 0 && !is_text(&finish_reason, "stop") {
        return Err(OpenAICompatibleError::Unfinished { finish_reason });
    }
    Ok(
        ToolChatResponse {
            content,
            reasoning: ReasoningState { display_text, replay },
            tool_calls,
            finish_reason,
            id: parsed.id,
            model: parsed.model,
            usage: parsed.usage,
            raw_response,
        },
    )
}

/// What a parsed reply is read as.
pub open spec fn response_text_of(parsed: Result<JsonView, Seq<char>>) -> Result<
    ResponseView,
    ErrorView,
> {
    match parsed {
        Ok(raw) => match reply_in(raw) {
            Some(reply) => response_of(reply, raw),
            None => Err(ErrorView::Malformed { fault: None }),
        },
        Err(fault) => Err(ErrorView::Malformed { fault: Some(fault) }),
    }
}

/// What the text of a reply is read as. A text that writes a field twice is left to the
/// caller to refuse: the parsed value does not show it.
pub fn parse_openai_compatible_chat_response(response_text: &str) -> (r: Result<
    ToolChatResponse,
    OpenAICompatibleError,
>)
    ensures
        match r {
            Ok(response) => response_text_of(json_read(response_text@)) == Ok::<_, ErrorView>(
                response@,
            ),
            Err(e) => response_text_of(json_read(response_text@)) == Err::<ResponseView, _>(e@),
        },
{
    match read_json(response_text) {
        Ok(raw) => match read_reply(&raw) {
            Some(parsed) => read_response(parsed, raw),
            None => Err(OpenAICompatibleError::Malformed { fault: None }),
        },
        Err(fault) => Err(OpenAICompatibleError::Malformed { fault: Some(fault) }),
    }
}

/// A reply, read without regard to what its answers hold.
pub open spec fn parsed_reply_of(parsed: Result<JsonView, Seq<char>>) -> Result<
    ReplyView,
    ErrorView,
> {
    match parsed {
        Ok(raw) => match reply_in(raw) {
            Some(reply) => Ok(reply),
            None => Err(ErrorView::Malformed { fault: None }),
        },
        Err(fault) => Err(ErrorView::Malformed { fault: Some(fault) }),
    }
}

/// A reply, read without regard to what its answers hold.
pub fn parse_openai_compatible_response(response_text: &str) -> (r: Result<
    OpenAICompatibleChatResponse,
    OpenAICompatibleError,
>)
    ensures
        match r {
            Ok(reply) => parsed_reply_of(json_read(response_text@)) == Ok::<_, ErrorView>(reply@),
            Err(e) => parsed_reply_of(json_read(response_text@)) == Err::<ReplyView, _>(e@),
        },
{
    match read_json(response_text) {
        Ok(raw) => match read_reply(&raw) {
            Some(parsed) => Ok(parsed),
            None => Err(OpenAICompatibleError::Malformed { fault: None }),
        },
        Err(fault) => Err(OpenAICompatibleError::Malformed { fault: Some(fault) }),
    }
}

/// The description of an image in a reply.
pub open spec fn description_of(reply: ReplyView) -> Result<Seq<char>, ErrorView> {
    match first_choice_of(reply) {
        Err(e) => Err(e),
        Ok(choice) => match choice.content {
            Some(text) => Ok(text),
            None => Err(ErrorView::EmptyAnswer),
        },
    }
}

/// The description of an image in a reply.
pub fn description_in(response: &OpenAICompatibleChatResponse) -> (r: Result<
    String,
    OpenAICompatibleError,
>)
    ensures
        match r {
            Ok(text) => description_of(response@) == Ok::<_, ErrorView>(text@),
            Err(e) => description_of(response@) == Err::<Seq<char>, _>(e@),
        },
{
    match first_choice(response) {
        Err(e) => Err(e),
        Ok(choice) => match &choice.content {
            Some(text) => Ok(text.clone()),
            None => Err(OpenAICompatibleError::EmptyAnswer),
        },
    }
}

/// The answer to a search in a reply, without white space around it.
pub open spec fn search_answer_of(reply: ReplyView) -> Result<Seq<char>, ErrorView> {
    match first_choice_of(reply) {
        Err(e) => Err(e),
        Ok(choice) => match choice.content {
            Some(text) => if is_blank(text) {
                Err(ErrorView::EmptyAnswer)
            } else {
                Ok(trim_of(text))
            },
            None => Err(ErrorView::EmptyAnswer),
        },
    }
}

/// The answer to a search in a reply, without white space around it.
pub fn search_answer_in(response: &OpenAICompatibleChatResponse) -> (r: Result<
    String,
    OpenAICompatibleError,
>)
    ensures
        match r {
            Ok(text) => search_answer_of(response@) == Ok::<_, ErrorView>(text@),
            Err(e) => search_answer_of(response@) == Err::<Seq<char>, _>(e@),
        },
{
    match first_choice(response) {
        Err(e) => Err(e),
        Ok(choice) => match &choice.content {
            Some(text) => {
                let trimmed = trim(text);
                if trimmed.is_empty() {
                    Err(OpenAICompatibleError::EmptyAnswer)
                } else {
                    Ok(trimmed)
                }
            },
            None => Err(OpenAICompatibleError::EmptyAnswer),
        },
    }
}

/// The reasoning text of an accepted reply goes back with the next request unchanged.
pub proof fn law_reasoning_text_goes_back(reply: ReplyView, raw: JsonView, response: ResponseView)
    requires
        response_of(reply, raw) == Ok::<_, ErrorView>(response),
    ensures
        reasoning_text(response.as_message()->Assistant_reasoning) == (
        match reply.choices.unwrap()[0].reasoning_content {
            Some(text) => Some(JsonView::Text(text)),
            None => None,
        }),
{
}

proof fn lemma_content_part(part: PartView)
    ensures
        match part {
            PartView::Text(text) => content_part(part).text_field("type"@) == Some("text"@)
                && content_part(part).text_field("text"@) == Some(text),
            PartView::Image(url) => content_part(part).text_field("type"@) == Some("image_url"@)
                && content_part(part).nested_text("image_url"@, "url"@) == Some(url),
        },
{
    lemma_wire_names();
    match part {
        PartView::Text(text) => {
            lemma_object2("type"@, JsonView::Text("text"@), "text"@, JsonView::Text(text));
        },
        PartView::Image(url) => {
            let image = object2("url"@, JsonView::Text(url), "detail"@, JsonView::Text("high"@));
            lemma_object2("url"@, JsonView::Text(url), "detail"@, JsonView::Text("high"@));
            lemma_object2("type"@, JsonView::Text("image_url"@), "image_url"@, image);
        },
    }
}

proof fn lemma_user_content(parts: Seq<PartView>)
    ensures
        holds_parts(user_content(parts), parts),
{
    match only_text(parts) {
        Some(text) => {
            assert(parts =~= seq![PartView::Text(text)]);
        },
        None => {
            let items = user_content(parts)->Array_0;
            assert forall|k: int| 0 <= k < parts.len() implies match #[trigger] parts[k] {
                PartView::Text(text) => items[k].text_field("type"@) == Some("text"@)
                    && items[k].text_field("text"@) == Some(text),
                PartView::Image(url) => items[k].text_field("type"@) == Some("image_url"@)
                    && items[k].nested_text("image_url"@, "url"@) == Some(url),
            } by {
                lemma_content_part(parts[k]);
            }
        },
    }
}

proof fn lemma_wire_message(message: MessageView)
    ensures
        holds_message(wire_message(message), message),
        message matches MessageView::Assistant { content, reasoning, tool_calls }
            ==> wire_message(message).field("reasoning_content"@) == match reasoning {
            Some(ReasoningView::Text(text)) => Some(JsonView::Text(text)),
            _ => None,
        },
{
    lemma_wire_names();
    match message {
        MessageView::System { content } => {
            lemma_object2("role"@, JsonView::Text("system"@), "content"@, JsonView::Text(content));
        },
        MessageView::User { content } => {
            lemma_user_content(content);
            lemma_object2("role"@, JsonView::Text("user"@), "content"@, user_content(content));
        },
        MessageView::Tool { tool_call_id, content } => {
            lemma_object3(
                "role"@,
                JsonView::Text("tool"@),
                "tool_call_id"@,
                JsonView::Text(tool_call_id),
                "content"@,
                JsonView::Text(content),
            );
        },
        MessageView::Assistant { content, reasoning, tool_calls } => {
            let first = Seq::empty().push(("role"@, JsonView::Text("assistant"@))).push(
                ("content"@, text_or_null(content)),
            );
            lemma_object2(
                "role"@,
                JsonView::Text("assistant"@),
                "content"@,
                text_or_null(content),
            );
            lemma_no_field(first, "tool_calls"@);
            lemma_no_field(first, "reasoning_content"@);
            let value = reasoning_text(reasoning);
            let second = with_field(first, "reasoning_content"@, value);
            lemma_more_fields(first, "reasoning_content"@, value, "role"@);
            lemma_more_fields(first, "reasoning_content"@, value, "content"@);
            lemma_more_fields(first, "reasoning_content"@, value, "tool_calls"@);
            lemma_more_fields(first, "reasoning_content"@, value, "reasoning_content"@);
            let calls = wire_calls(tool_calls);
            lemma_more_fields(second, "tool_calls"@, calls, "role"@);
            lemma_more_fields(second, "tool_calls"@, calls, "content"@);
            lemma_more_fields(second, "tool_calls"@, calls, "tool_calls"@);
            lemma_more_fields(second, "tool_calls"@, calls, "reasoning_content"@);
            lemma_holds_calls(wire_message(message), tool_calls);
        },
    }
}

/// A request holds the whole conversation: for each message, in order, its role and its own content,
/// the calls that it makes or the call that it answers, and the reasoning text that goes back. It
/// names the model and the limits as they are given, and offers exactly the given tools.
pub proof fn law_request_holds_the_conversation(
    model: Seq<char>,
    max_tokens: i32,
    effort: Seq<char>,
    messages: Seq<MessageView>,
    tools: Seq<ToolDefinitionView>,
)
    ensures
        ({
            let request = chat_request(model, max_tokens, effort, messages, tools);
            &&& request.text_field("model"@) == Some(model)
            &&& request.text_field("reasoning_effort"@) == Some(effort)
            &&& max_tokens >= 0 ==> request.field("max_tokens"@) == Some(
                JsonView::Unsigned(max_tokens as u64),
            )
            &&& max_tokens < 0 ==> request.field("max_tokens"@) == Some(
                JsonView::Negative(max_tokens as i64),
            )
            &&& offers_tools(request, tools)
            &&& (request.array_field("messages"@) matches Some(items) && items.len()
                == messages.len() && forall|i: int|
                0 <= i < messages.len() ==> {
                    &&& holds_message(items[i], #[trigger] messages[i])
                    &&& messages[i] matches MessageView::Assistant {
                        content,
                        reasoning: Some(ReasoningView::Text(text)),
                        tool_calls,
                    } ==> items[i].text_field("reasoning_content"@) == Some(text)
                })
        }),
{
    reveal_strlit("model");
    reveal_strlit("messages");
    reveal_strlit("max_tokens");
    reveal_strlit("reasoning_effort");
    reveal_strlit("tools");
    reveal_strlit("tool_choice");
    assert("model"@[0] == 'm' && "tools"@[0] == 't');
    assert("model"@.len() == 5 && "messages"@.len() == 8 && "max_tokens"@.len() == 10);
    assert("reasoning_effort"@.len() == 16 && "tools"@.len() == 5 && "tool_choice"@.len() == 11);
    let request = chat_request(model, max_tokens, effort, messages, tools);
    let first = Seq::empty().push(("model"@, JsonView::Text(model))).push(
        ("messages"@, wire_messages(messages)),
    ).push(("max_tokens"@, int_view(max_tokens as int))).push(
        ("reasoning_effort"@, JsonView::Text(effort)),
    );
    lemma_field_at(first, "model"@, 0);
    lemma_field_at(first, "messages"@, 1);
    lemma_field_at(first, "max_tokens"@, 2);
    lemma_field_at(first, "reasoning_effort"@, 3);
    lemma_no_field(first, "tools"@);
    lemma_no_field(first, "tool_choice"@);
    let second = with_field(first, "tools"@, wire_tools(tools));
    lemma_more_fields(first, "tools"@, wire_tools(tools), "model"@);
    lemma_more_fields(first, "tools"@, wire_tools(tools), "messages"@);
    lemma_more_fields(first, "tools"@, wire_tools(tools), "max_tokens"@);
    lemma_more_fields(first, "tools"@, wire_tools(tools), "reasoning_effort"@);
    lemma_more_fields(first, "tools"@, wire_tools(tools), "tools"@);
    lemma_more_fields(first, "tools"@, wire_tools(tools), "tool_choice"@);
    lemma_more_fields(second, "tool_choice"@, wire_choice(tools), "model"@);
    lemma_more_fields(second, "tool_choice"@, wire_choice(tools), "messages"@);
    lemma_more_fields(second, "tool_choice"@, wire_choice(tools), "max_tokens"@);
    lemma_more_fields(second, "tool_choice"@, wire_choice(tools), "reasoning_effort"@);
    lemma_more_fields(second, "tool_choice"@, wire_choice(tools), "tools"@);
    lemma_more_fields(second, "tool_choice"@, wire_choice(tools), "tool_choice"@);
    lemma_offers_tools(request, tools);
    let items = request.array_field("messages"@).unwrap();
    assert forall|i: int| 0 <= i < messages.len() implies {
        &&& holds_message(items[i], #[trigger] messages[i])
        &&& messages[i] matches MessageView::Assistant {
            content,
            reasoning: Some(ReasoningView::Text(text)),
            tool_calls,
        } ==> items[i].text_field("reasoning_content"@) == Some(text)
    } by {
        lemma_wire_message(messages[i]);
    }
}

proof fn lemma_first_choice(items: Seq<JsonView>, choices: Seq<ChoiceView>)
    requires
        choices_in(items) == Some(choices),
    ensures
        choices.len() == items.len(),
        items.len() > 0 ==> choice_in(items[0]) == Some(choices[0]),
    decreases items.len(),
{
    if items.len() > 1 {
        assert(items.drop_last()[0] == items[0]);
        lemma_first_choice(items.drop_last(), choices_in(items.drop_last()).unwrap());
    } else if items.len() == 1 {
        assert(items.drop_last() =~= Seq::empty());
        assert(choices_in(items.drop_last()) == Some(Seq::<ChoiceView>::empty()));
    }
}

/// What is read of an accepted reply is what its first answer says: the text, the calls with their
/// ids, names and arguments, and why it ended, and besides the id, the model and the token counts of
/// the reply. The reply itself is kept as it came.
pub proof fn law_answer_is_read_from_the_reply(raw: JsonView, response: ResponseView)
    requires
        raw is Object,
        response_text_of(Ok(raw)) == Ok::<_, ErrorView>(response),
    ensures
        response.raw_response == raw,
        response.id == raw.text_field("id"@),
        response.model == raw.text_field("model"@),
        usage_is_of(response.usage, raw),
        raw.array_field("choices"@) matches Some(items) && items.len() > 0 && (items[0] is Object
            ==> {
            &&& response.finish_reason == items[0].text_field("finish_reason"@)
            &&& (items[0].field("message"@) matches Some(message) && (message is Object ==> {
                &&& response.content == message.text_field("content"@)
                &&& calls_are_of(response.tool_calls, message)
                &&& response.reasoning.display_text == message.text_field("reasoning_content"@)
                &&& response.reasoning.replay == match message.text_field("reasoning_content"@) {
                    Some(text) => Some(ReasoningView::Text(text)),
                    None => None,
                }
            }))
        }),
{
    let reply = reply_in(raw).unwrap();
    let items = raw.array_field("choices"@).unwrap();
    lemma_first_choice(items, reply.choices.unwrap());
    lemma_usage_is_of(raw);
    if items[0] is Object {
        let message = items[0].field("message"@).unwrap();
        if message is Object {
            lemma_calls_are_of(
                message,
                message_calls(message).unwrap(),
                response.tool_calls,
            );
        }
    }
}

/// A request to describe an image asks one question of the model: the words first, and then the image
/// under its address.
pub proof fn law_vision_request_holds_question_and_image(
    model: Seq<char>,
    max_tokens: i32,
    image_data_url: Seq<char>,
    prompt: Seq<char>,
)
    ensures
        ({
            let request = vision_request(model, max_tokens, image_data_url, prompt);
            &&& request.text_field("model"@) == Some(model)
            &&& request.field("max_tokens"@) == Some(int_view(max_tokens as int))
            &&& request.array_field("messages"@) matches Some(messages) && messages.len() == 1
                && messages[0].text_field("role"@) == Some("user"@) && (messages[0].field(
                "content"@,
            ) matches Some(content) && holds_parts(
                content,
                seq![PartView::Text(prompt), PartView::Image(image_data_url)],
            ))
        }),
{
    reveal_strlit("model");
    reveal_strlit("messages");
    reveal_strlit("max_tokens");
    reveal_strlit("role");
    reveal_strlit("content");
    assert("model"@.len() == 5 && "messages"@.len() == 8 && "max_tokens"@.len() == 10);
    assert("role"@.len() == 4 && "content"@.len() == 7);
    let request = vision_request(model, max_tokens, image_data_url, prompt);
    lemma_field_at(request->Object_0, "model"@, 0);
    lemma_field_at(request->Object_0, "messages"@, 1);
    lemma_field_at(request->Object_0, "max_tokens"@, 2);
    let message = request.array_field("messages"@).unwrap()[0];
    lemma_field_at(message->Object_0, "role"@, 0);
    lemma_field_at(message->Object_0, "content"@, 1);
    lemma_content_part(PartView::Text(prompt));
    lemma_content_part(PartView::Image(image_data_url));
}

/// A request to search the web asks the model the question as it is, and asks for a search.
pub proof fn law_search_request_holds_the_question(model: Seq<char>, question: Seq<char>)
    ensures
        ({
            let request = search_request(model, question);
            &&& request.text_field("model"@) == Some(model)
            &&& request.field("web_search_options"@) is Some
            &&& request.array_field("messages"@) matches Some(messages) && messages.len() == 1
                && messages[0].text_field("role"@) == Some("user"@) && messages[0].text_field(
                "content"@,
            ) == Some(question)
        }),
{
    reveal_strlit("model");
    reveal_strlit("messages");
    reveal_strlit("web_search_options");
    reveal_strlit("role");
    reveal_strlit("content");
    assert("model"@.len() == 5 && "messages"@.len() == 8 && "web_search_options"@.len() == 18);
    assert("role"@.len() == 4 && "content"@.len() == 7);
    let request = search_request(model, question);
    lemma_field_at(request->Object_0, "model"@, 0);
    lemma_field_at(request->Object_0, "messages"@, 1);
    lemma_field_at(request->Object_0, "web_search_options"@, 2);
    let message = request.array_field("messages"@).unwrap()[0];
    lemma_field_at(message->Object_0, "role"@, 0);
    lemma_field_at(message->Object_0, "content"@, 1);
}

/// The description of an image is the text of the first answer as it stands in the reply, and the
/// answer to a search is that text without white space around it. A reply whose first answer has no
/// text gives neither.
pub proof fn law_the_text_is_that_of_the_first_answer(
    raw: JsonView,
    reply: ReplyView,
    items: Seq<JsonView>,
    message: JsonView,
)
    requires
        raw is Object,
        reply_in(raw) == Some(reply),
        raw.array_field("choices"@) == Some(items),
        items.len() > 0,
        items[0] is Object,
        items[0].field("message"@) == Some(message),
        message is Object,
    ensures
        match message.text_field("content"@) {
            Some(text) => description_of(reply) == Ok::<_, ErrorView>(text) && (!is_blank(text)
                ==> search_answer_of(reply) == Ok::<_, ErrorView>(trim_of(text))) && (is_blank(text)
                ==> search_answer_of(reply) is Err),
            None => description_of(reply) is Err && search_answer_of(reply) is Err,
        },
{
    lemma_first_choice(items, reply.choices.unwrap());
}

} // verus!
