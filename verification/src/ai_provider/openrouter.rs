//! The OpenRouter interface.

use vstd::prelude::*;

use crate::ai_provider::chat_wire::{
    calls_are_of, calls_to_wire, choice_to_wire, function_calls, holds_message, holds_parts,
    is_object, lemma_calls_are_of, lemma_holds_calls, lemma_more_fields, lemma_object2,
    lemma_object3, lemma_offers_tools, lemma_usage_is_of, lemma_wire_names, message_calls,
    offers_tools, optional_text, optional_usage, optional_value, read_message_calls,
    read_optional_text, read_optional_value, read_usage, take_function_calls, text_or_null,
    text_or_null_json, tools_to_wire, usage_is_of, wire_calls, wire_calls_view, wire_choice,
    wire_tools, WireCall, WireCallView,
};
use crate::ai_provider::{
    messages_view, only_text, parts_view, ChatUsage, MessageView, PartView, ReasoningPayload,
    ReasoningState, ReasoningStateView, ReasoningView, ResponseView, ToolChatContentPart,
    ToolChatMessage, ToolChatResponse, ToolChatUserContent,
};
use crate::json::{
    int_view, items_view, json_read, json_written, lemma_field_at, lemma_no_field, lookup, named,
    object1, object2, object3, object4, option_json, option_text, read_json, with_field, with_names,
    write_json, Fields, Items, Json, JsonView,
};
use crate::text::{is_blank, join, join_of, texts, trim, trim_of};
use crate::tools::{definitions_view, ToolDefinition, ToolDefinitionView};

verus! {

/// How hard a model reasons over an image.
pub const VISION_REASONING_EFFORT: &'static str = "low";

/// A text without white space around it, where anything is left.
pub open spec fn non_empty(text: Seq<char>) -> Option<Seq<char>> {
    if is_blank(text) {
        None
    } else {
        Some(trim_of(text))
    }
}

/// A text without white space around it, where anything is left.
pub fn non_empty_text(text: &str) -> (r: Option<String>)
    ensures
        option_text(r) == non_empty(text@),
{
    let trimmed = trim(text);
    if trimmed.is_empty() {
        None
    } else {
        Some(trimmed)
    }
}

/// A field of an object is smaller than the object.
proof fn lemma_field_smaller(fields: Seq<(Seq<char>, JsonView)>, key: Seq<char>)
    ensures
        lookup(fields, key) matches Some(v) ==> exists|i: int|
            0 <= i < fields.len() && v == (#[trigger] fields[i]).1,
    decreases fields.len(),
{
    if fields.len() > 0 && fields[0].0 != key {
        lemma_field_smaller(fields.drop_first(), key);
        if let Some(v) = lookup(fields, key) {
            let i = choose|i: int|
                0 <= i < fields.drop_first().len() && v == (#[trigger] fields.drop_first()[i]).1;
            assert(fields[i + 1].1 == v);
        }
    }
}

/// The field `key` of a value is smaller than the value.
pub proof fn lemma_field_decreases(v: JsonView, key: Seq<char>)
    ensures
        v.field(key) matches Some(found) ==> decreases_to!(v => found),
{
    if let JsonView::Object(fields) = v {
        lemma_field_smaller(fields, key);
        if let Some(found) = v.field(key) {
            let i = choose|i: int| 0 <= i < fields.len() && found == (#[trigger] fields[i]).1;
            assert(decreases_to!(v => v->Object_0[i].1));
        }
    }
}

/// The reasoning in a value as text: what it says, or the value itself where it says nothing.
pub open spec fn reasoning_text(v: JsonView) -> Option<Seq<char>>
    decreases v, 1nat,
{
    match v {
        JsonView::Text(text) => non_empty(text),
        JsonView::Array(items) => {
            let blocks = block_texts(items);
            if blocks.len() == 0 {
                Some(json_written(v))
            } else {
                Some(join_of(blocks, "\n"@))
            }
        },
        JsonView::Object(_) => match key_text(v, "text"@) {
            Some(text) => Some(text),
            None => match key_text(v, "content"@) {
                Some(text) => Some(text),
                None => match key_text(v, "reasoning"@) {
                    Some(text) => Some(text),
                    None => match key_text(v, "reasoning_content"@) {
                        Some(text) => Some(text),
                        None => match key_text(v, "summary"@) {
                            Some(text) => Some(text),
                            None => Some(json_written(v)),
                        },
                    },
                },
            },
        },
        _ => Some(json_written(v)),
    }
}

/// The reasoning in the field `key` of a value as text.
pub open spec fn key_text(v: JsonView, key: Seq<char>) -> Option<Seq<char>>
    decreases v, 0nat,
{
    proof {
        lemma_field_decreases(v, key);
    }
    match v.field(key) {
        Some(found) => reasoning_text(found),
        None => None,
    }
}

/// The texts of blocks of reasoning: of each its text, or its summary where it has no text.
pub open spec fn block_texts(items: Seq<JsonView>) -> Seq<Seq<char>>
    decreases items, 0nat,
{
    if items.len() == 0 {
        Seq::empty()
    } else {
        let front = block_texts(items.drop_last());
        match key_text(items.last(), "text"@) {
            Some(text) => front.push(text),
            None => match key_text(items.last(), "summary"@) {
                Some(text) => front.push(text),
                None => front,
            },
        }
    }
}

/// The reasoning in the field `key` of a value as text.
fn text_under(v: &Json, key: &str) -> (r: Option<String>)
    ensures
        option_text(r) == key_text(v@, key@),
    decreases v@, 0nat,
{
    proof {
        lemma_field_decreases(v@, key@);
    }
    match v.get(key) {
        Some(found) => reasoning_value_to_text(found),
        None => None,
    }
}

/// The reasoning in a value as text: what it says, or the value itself where it says nothing.
pub fn reasoning_value_to_text(reasoning: &Json) -> (r: Option<String>)
    ensures
        option_text(r) == reasoning_text(reasoning@),
    decreases reasoning@, 1nat,
{
    match reasoning {
        Json::Text(text) => non_empty_text(text),
        Json::Array(items) => {
            assert(reasoning@->Array_0 =~= items_view(items@));
            let ghost all = items_view(items@);
            let mut blocks: Vec<String> = Vec::new();
            assert(texts(blocks@) =~= Seq::empty());
            let mut i: usize = 0;
            while i < items.len()
                invariant
                    i <= items@.len(),
                    all == items_view(items@),
                    reasoning@ == JsonView::Array(all),
                    texts(blocks@) == block_texts(all.take(i as int)),
                decreases items@.len() - i,
            {
                let item = &items[i];
                assert(all.take(i + 1).drop_last() =~= all.take(i as int));
                assert(all.take(i + 1).last() == item@);
                assert(decreases_to!(reasoning@ => reasoning@->Array_0[i as int]));
                let ghost before = texts(blocks@);
                let found = match text_under(item, "text") {
                    Some(text) => Some(text),
                    None => text_under(item, "summary"),
                };
                if let Some(text) = found {
                    blocks.push(text);
                    assert(texts(blocks@) =~= before.push(text@));
                }
                i += 1;
            }
            assert(all.take(i as int) =~= all);
            if blocks.len() == 0 {
                Some(write_json(reasoning))
            } else {
                Some(join(&blocks, "\n"))
            }
        },
        Json::Object(_) => {
            if let Some(text) = text_under(reasoning, "text") {
                return Some(text);
            }
            if let Some(text) = text_under(reasoning, "content") {
                return Some(text);
            }
            if let Some(text) = text_under(reasoning, "reasoning") {
                return Some(text);
            }
            if let Some(text) = text_under(reasoning, "reasoning_content") {
                return Some(text);
            }
            if let Some(text) = text_under(reasoning, "summary") {
                return Some(text);
            }
            Some(write_json(reasoning))
        },
        _ => Some(write_json(reasoning)),
    }
}

/// A piece of a user message.
pub open spec fn content_part(part: PartView) -> JsonView {
    match part {
        PartView::Text(text) => object2(
            "type"@,
            JsonView::Text("text"@),
            "text"@,
            JsonView::Text(text),
        ),
        PartView::Image(data_url) => object2(
            "type"@,
            JsonView::Text("image_url"@),
            "image_url"@,
            object1("url"@, JsonView::Text(data_url)),
        ),
    }
}

/// The content of a user message: a plain text where it is nothing else, otherwise its pieces.
pub open spec fn user_content(parts: Seq<PartView>) -> JsonView {
    match only_text(parts) {
        Some(text) => JsonView::Text(text),
        None => JsonView::Array(Seq::new(parts.len(), |i: int| content_part(parts[i]))),
    }
}

fn user_content_to_wire(content: &ToolChatUserContent) -> (r: Json)
    ensures
        r@ == user_content(content@),
{
    if let Some(text) = content.as_text() {
        return Json::text(text);
    }
    let parts = content.parts();
    let ghost listed = Seq::new(content@.len(), |i: int| content_part(content@[i]));
    let mut items = Items::new();
    let mut i: usize = 0;
    while i < parts.len()
        invariant
            i <= parts@.len(),
            parts_view(parts@) == content@,
            listed == Seq::new(content@.len(), |i: int| content_part(content@[i])),
            items@ == listed.take(i as int),
        decreases parts@.len() - i,
    {
        assert(content@[i as int] == parts@[i as int]@);
        let mut fields = Fields::new();
        match &parts[i] {
            ToolChatContentPart::Text { text } => {
                fields.put_text("type", "text");
                fields.put_text("text", text);
            },
            ToolChatContentPart::Image { data_url } => {
                let mut image = Fields::new();
                image.put_text("url", data_url);
                fields.put_text("type", "image_url");
                fields.put("image_url", image.done());
            },
        }
        items.push(fields.done());
        assert(listed.take(i + 1) =~= listed.take(i as int).push(listed[i as int]));
        i += 1;
    }
    assert(listed.take(i as int) =~= listed);
    items.done()
}

/// The reasoning of a message: text goes back as `reasoning`, anything else as
/// `reasoning_details`.
pub open spec fn with_reasoning(
    fields: Seq<(Seq<char>, JsonView)>,
    reasoning: Option<ReasoningView>,
) -> Seq<(Seq<char>, JsonView)> {
    match reasoning {
        Some(ReasoningView::Text(text)) => fields.push(("reasoning"@, JsonView::Text(text))),
        Some(ReasoningView::Structured(details)) => fields.push(("reasoning_details"@, details)),
        None => fields,
    }
}

/// A message of a request.
pub open spec fn wire_message(message: MessageView) -> JsonView {
    match message {
        MessageView::System { content } => object2(
            "role"@,
            JsonView::Text("system"@),
            "content"@,
            JsonView::Text(content),
        ),
        MessageView::User { content } => object2(
            "role"@,
            JsonView::Text("user"@),
            "content"@,
            user_content(content),
        ),
        MessageView::Assistant { content, reasoning, tool_calls } => JsonView::Object(
            with_field(
                with_reasoning(
                    Seq::empty().push(("role"@, JsonView::Text("assistant"@))).push(
                        ("content"@, text_or_null(content)),
                    ),
                    reasoning,
                ),
                "tool_calls"@,
                wire_calls(tool_calls),
            ),
        ),
        MessageView::Tool { tool_call_id, content } => object3(
            "role"@,
            JsonView::Text("tool"@),
            "tool_call_id"@,
            JsonView::Text(tool_call_id),
            "content"@,
            JsonView::Text(content),
        ),
    }
}

/// A message of a request.
fn message_to_wire(message: &ToolChatMessage) -> (r: Json)
    ensures
        r@ == wire_message(message@),
{
    let mut fields = Fields::new();
    match message {
        ToolChatMessage::System { content } => {
            fields.put_text("role", "system");
            fields.put_text("content", content);
        },
        ToolChatMessage::User { content } => {
            fields.put_text("role", "user");
            fields.put("content", user_content_to_wire(content));
        },
        ToolChatMessage::Assistant { content, reasoning, tool_calls } => {
            fields.put_text("role", "assistant");
            fields.put("content", text_or_null_json(content));
            match reasoning {
                Some(ReasoningPayload::Text(text)) => fields.put_text("reasoning", text),
                Some(ReasoningPayload::Structured(details)) => fields.put(
                    "reasoning_details",
                    details.copy(),
                ),
                None => {},
            }
            fields.put_some("tool_calls", calls_to_wire(tool_calls));
        },
        ToolChatMessage::Tool { tool_call_id, content } => {
            fields.put_text("role", "tool");
            fields.put_text("tool_call_id", tool_call_id);
            fields.put_text("content", content);
        },
    }
    fields.done()
}

/// The messages of a request.
pub open spec fn wire_messages(messages: Seq<MessageView>) -> JsonView {
    JsonView::Array(Seq::new(messages.len(), |i: int| wire_message(messages[i])))
}

/// How hard a model is asked to reason.
pub open spec fn reasoning_field(effort: Seq<char>) -> JsonView {
    object2("effort"@, JsonView::Text(effort), "summary"@, JsonView::Text("auto"@))
}

fn reasoning_to_wire(effort: &str) -> (r: Json)
    ensures
        r@ == reasoning_field(effort@),
{
    let mut fields = Fields::new();
    fields.put_text("effort", effort);
    fields.put_text("summary", "auto");
    fields.done()
}

/// A chat request; without tools the fields for tools are left out.
pub open spec fn chat_request(
    model: Seq<char>,
    max_tokens: i32,
    effort: Seq<char>,
    messages: Seq<MessageView>,
    tools: Seq<ToolDefinitionView>,
) -> JsonView {
    let fields = Seq::empty().push(("model"@, JsonView::Text(model))).push(
        ("messages"@, wire_messages(messages)),
    ).push(("max_completion_tokens"@, int_view(max_tokens as int))).push(
        ("reasoning"@, reasoning_field(effort)),
    ).push(("response_format"@, object1("type"@, JsonView::Text("text"@))));
    JsonView::Object(
        with_field(
            with_field(fields, "tools"@, wire_tools(tools)),
            "tool_choice"@,
            wire_choice(tools),
        ),
    )
}

/// A chat request; without tools the fields for tools are left out.
pub fn build_openrouter_chat_request(
    model: &str,
    max_tokens: i32,
    reasoning_effort: &str,
    messages: &Vec<ToolChatMessage>,
    tools: &Vec<ToolDefinition>,
) -> (r: Json)
    ensures
        r@ == chat_request(
            model@,
            max_tokens,
            reasoning_effort@,
            messages_view(messages@),
            definitions_view(tools@),
        ),
{
    let ghost all = messages_view(messages@);
    let ghost listed = Seq::new(all.len(), |i: int| wire_message(all[i]));
    let mut items = Items::new();
    let mut i: usize = 0;
    while i < messages.len()
        invariant
            i <= messages@.len(),
            all == messages_view(messages@),
            listed == Seq::new(all.len(), |i: int| wire_message(all[i])),
            items@ == listed.take(i as int),
        decreases messages@.len() - i,
    {
        items.push(message_to_wire(&messages[i]));
        assert(listed.take(i + 1) =~= listed.take(i as int).push(listed[i as int]));
        i += 1;
    }
    assert(listed.take(i as int) =~= listed);
    let mut format = Fields::new();
    format.put_text("type", "text");
    let mut fields = Fields::new();
    fields.put_text("model", model);
    fields.put("messages", items.done());
    fields.put("max_completion_tokens", Json::integer(max_tokens as i64));
    fields.put("reasoning", reasoning_to_wire(reasoning_effort));
    fields.put("response_format", format.done());
    fields.put_some("tools", tools_to_wire(tools));
    fields.put_some("tool_choice", choice_to_wire(tools));
    fields.done()
}

/// A request to describe an image.
pub open spec fn vision_request(
    model: Seq<char>,
    max_tokens: i32,
    image_data_url: Seq<char>,
    prompt: Seq<char>,
) -> JsonView {
    object4(
        "model"@,
        JsonView::Text(model),
        "messages"@,
        JsonView::Array(
            seq![
                object2(
                    "role"@,
                    JsonView::Text("user"@),
                    "content"@,
                    JsonView::Array(
                        Seq::empty().push(content_part(PartView::Text(prompt))).push(
                            content_part(PartView::Image(image_data_url)),
                        ),
                    ),
                ),
            ],
        ),
        "max_completion_tokens"@,
        int_view(max_tokens as int),
        "reasoning"@,
        reasoning_field(VISION_REASONING_EFFORT@),
    )
}

/// A request to describe an image.
pub fn build_vision_request(
    model: &str,
    max_tokens: i32,
    image_data_url: &str,
    prompt: &str,
) -> (r: Json)
    ensures
        r@ == vision_request(model@, max_tokens, image_data_url@, prompt@),
{
    let mut text = Fields::new();
    text.put_text("type", "text");
    text.put_text("text", prompt);
    let mut image_url = Fields::new();
    image_url.put_text("url", image_data_url);
    let mut image = Fields::new();
    image.put_text("type", "image_url");
    image.put("image_url", image_url.done());
    let mut content = Items::new();
    content.push(text.done());
    content.push(image.done());
    let mut message = Fields::new();
    message.put_text("role", "user");
    message.put("content", content.done());
    let mut messages = Items::new();
    messages.push(message.done());
    let mut fields = Fields::new();
    fields.put_text("model", model);
    fields.put("messages", messages.done());
    fields.put("max_completion_tokens", Json::integer(max_tokens as i64));
    fields.put("reasoning", reasoning_to_wire(VISION_REASONING_EFFORT));
    fields.done()
}

/// One of the answers in a reply.
#[derive(Debug, PartialEq)]
pub struct OpenRouterChoice {
    pub index: u64,
    pub content: Option<String>,
    pub reasoning: Option<Json>,
    pub reasoning_content: Option<Json>,
    pub reasoning_details: Option<Json>,
    pub tool_calls: Vec<WireCall>,
    pub finish_reason: Option<String>,
}

/// What an answer holds.
pub struct ChoiceView {
    pub index: u64,
    pub content: Option<Seq<char>>,
    pub reasoning: Option<JsonView>,
    pub reasoning_content: Option<JsonView>,
    pub reasoning_details: Option<JsonView>,
    pub tool_calls: Seq<WireCallView>,
    pub finish_reason: Option<Seq<char>>,
}

impl View for OpenRouterChoice {
    type V = ChoiceView;

    open spec fn view(&self) -> ChoiceView {
        ChoiceView {
            index: self.index,
            content: option_text(self.content),
            reasoning: option_json(self.reasoning),
            reasoning_content: option_json(self.reasoning_content),
            reasoning_details: option_json(self.reasoning_details),
            tool_calls: wire_calls_view(self.tool_calls@),
            finish_reason: option_text(self.finish_reason),
        }
    }
}

/// The answers of a list.
pub open spec fn choices_view(choices: Seq<OpenRouterChoice>) -> Seq<ChoiceView> {
    Seq::new(choices.len(), |i: int| choices[i]@)
}

/// A reply.
#[derive(Debug, PartialEq)]
pub struct OpenRouterChatResponse {
    pub id: Option<String>,
    pub model: Option<String>,
    pub choices: Vec<OpenRouterChoice>,
    pub usage: Option<ChatUsage>,
}

/// What a reply holds.
pub struct ReplyView {
    pub id: Option<Seq<char>>,
    pub model: Option<Seq<char>>,
    pub choices: Seq<ChoiceView>,
    pub usage: Option<ChatUsage>,
}

impl View for OpenRouterChatResponse {
    type V = ReplyView;

    open spec fn view(&self) -> ReplyView {
        ReplyView {
            id: option_text(self.id),
            model: option_text(self.model),
            choices: choices_view(self.choices@),
            usage: self.usage,
        }
    }
}

/// The names of the fields of a reply, in the order in which a list holds them.
pub open spec fn reply_names() -> Seq<&'static str> {
    seq!["id", "model", "choices", "usage"]
}

/// The names of the fields of an answer, in the order in which a list holds them.
pub open spec fn choice_names() -> Seq<&'static str> {
    seq!["index", "message", "finish_reason"]
}

/// The names of the fields of a message, in the order in which a list holds them.
pub open spec fn message_names() -> Seq<&'static str> {
    seq![
        "role",
        "content",
        "reasoning",
        "reasoning_content",
        "reasoning_details",
        "tool_calls",
    ]
}

/// An answer; nothing where it has another shape.
pub open spec fn choice_in(v: JsonView) -> Option<ChoiceView> {
    let choice = with_names(v, choice_names());
    match (
        choice.unsigned_field("index"@),
        choice.field("message"@),
        optional_text(choice, "finish_reason"@),
    ) {
        (Some(index), Some(found), Some(finish_reason)) => message_in(
            with_names(found, message_names()),
            index,
            finish_reason,
        ),
        _ => None,
    }
}

/// The message of an answer; nothing where it has another shape.
pub open spec fn message_in(
    message: JsonView,
    index: u64,
    finish_reason: Option<Seq<char>>,
) -> Option<ChoiceView> {
    if message is Object {
        match (
            optional_text(message, "role"@),
            optional_text(message, "content"@),
            message_calls(message),
        ) {
            (Some(_), Some(content), Some(tool_calls)) => Some(
                ChoiceView {
                    index,
                    content,
                    reasoning: optional_value(message, "reasoning"@),
                    reasoning_content: optional_value(message, "reasoning_content"@),
                    reasoning_details: optional_value(message, "reasoning_details"@),
                    tool_calls,
                    finish_reason,
                },
            ),
            _ => None,
        }
    } else {
        None
    }
}

/// An answer; nothing where it has another shape.
fn read_choice(v: &Json) -> (r: Option<OpenRouterChoice>)
    ensures
        match r {
            Some(c) => choice_in(v@) == Some(c@),
            None => choice_in(v@) is None,
        },
{
    let names = vec!["index", "message", "finish_reason"];
    assert(names@ =~= choice_names());
    let choice = named(v, names);
    match (
        choice.unsigned_at("index"),
        choice.get("message"),
        read_optional_text(&choice, "finish_reason"),
    ) {
        (Some(index), Some(found), Some(finish_reason)) => {
            let names = vec![
                "role",
                "content",
                "reasoning",
                "reasoning_content",
                "reasoning_details",
                "tool_calls",
            ];
            assert(names@ =~= message_names());
            let message = named(found, names);
            if !is_object(&message) {
                return None;
            }
            match (
                read_optional_text(&message, "role"),
                read_optional_text(&message, "content"),
                read_message_calls(&message),
            ) {
                (Some(_), Some(content), Some(tool_calls)) => Some(
                    OpenRouterChoice {
                        index,
                        content,
                        reasoning: read_optional_value(&message, "reasoning"),
                        reasoning_content: read_optional_value(&message, "reasoning_content"),
                        reasoning_details: read_optional_value(&message, "reasoning_details"),
                        tool_calls,
                        finish_reason,
                    },
                ),
                _ => None,
            }
        },
        _ => None,
    }
}

/// The answers in a list; nothing where one has another shape.
pub open spec fn choices_in(items: Seq<JsonView>) -> Option<Seq<ChoiceView>>
    decreases items.len(),
{
    if items.len() == 0 {
        Some(Seq::empty())
    } else {
        match (choices_in(items.drop_last()), choice_in(items.last())) {
            (Some(front), Some(choice)) => Some(front.push(choice)),
            _ => None,
        }
    }
}

/// One answer of another shape spoils the list.
proof fn lemma_choices_in_none(items: Seq<JsonView>, n: int)
    requires
        0 <= n <= items.len(),
        choices_in(items.take(n)) is None,
    ensures
        choices_in(items) is None,
    decreases items.len() - n,
{
    if n < items.len() {
        assert(items.take(n + 1).drop_last() =~= items.take(n));
        lemma_choices_in_none(items, n + 1);
    } else {
        assert(items.take(n) =~= items);
    }
}

/// The answers in a list; nothing where one has another shape.
fn read_choices(items: &Vec<Json>) -> (r: Option<Vec<OpenRouterChoice>>)
    ensures
        match r {
            Some(list) => choices_in(items_view(items@)) == Some(choices_view(list@)),
            None => choices_in(items_view(items@)) is None,
        },
{
    let mut list: Vec<OpenRouterChoice> = Vec::new();
    assert(choices_view(list@) =~= Seq::empty());
    let ghost all = items_view(items@);
    let mut i: usize = 0;
    while i < items.len()
        invariant
            i <= items@.len(),
            all == items_view(items@),
            choices_in(all.take(i as int)) == Some(choices_view(list@)),
        decreases items@.len() - i,
    {
        proof {
            assert(all.take(i + 1).drop_last() =~= all.take(i as int));
            assert(all.take(i + 1).last() == items@[i as int]@);
        }
        match read_choice(&items[i]) {
            Some(choice) => {
                let ghost before = choices_view(list@);
                list.push(choice);
                assert(choices_view(list@) =~= before.push(choice@));
            },
            None => {
                proof {
                    lemma_choices_in_none(all, i + 1);
                }
                return None;
            },
        }
        i += 1;
    }
    assert(all.take(i as int) =~= all);
    Some(list)
}

/// A reply; nothing where it has another shape.
pub open spec fn reply_in(v: JsonView) -> Option<ReplyView> {
    let reply = with_names(v, reply_names());
    match (
        optional_text(reply, "id"@),
        optional_text(reply, "model"@),
        reply.array_field("choices"@),
        optional_usage(reply),
    ) {
        (Some(id), Some(model), Some(items), Some(usage)) => match choices_in(items) {
            Some(choices) => Some(ReplyView { id, model, choices, usage }),
            None => None,
        },
        _ => None,
    }
}

/// A reply; nothing where it has another shape.
pub fn read_reply(v: &Json) -> (r: Option<OpenRouterChatResponse>)
    ensures
        match r {
            Some(reply) => reply_in(v@) == Some(reply@),
            None => reply_in(v@) is None,
        },
{
    let names = vec!["id", "model", "choices", "usage"];
    assert(names@ =~= reply_names());
    let reply = named(v, names);
    match (
        read_optional_text(&reply, "id"),
        read_optional_text(&reply, "model"),
        reply.array_at("choices"),
        read_usage(&reply),
    ) {
        (Some(id), Some(model), Some(items), Some(usage)) => match read_choices(items) {
            Some(choices) => Some(OpenRouterChatResponse { id, model, choices, usage }),
            None => None,
        },
        _ => None,
    }
}

/// Why a reply is not accepted.
#[derive(Debug, PartialEq, Eq)]
pub enum OpenRouterError {
    /// The reply is no JSON.
    NotJson { fault: String },
    /// The reply is not of the expected shape.
    Malformed,
    EmptyChoices,
    UnsupportedTool { kind: String },
    /// Neither text nor tool calls.
    EmptyReply,
    EmptyAnswer,
}

/// What an error holds.
pub enum ErrorView {
    NotJson { fault: Seq<char> },
    Malformed,
    EmptyChoices,
    UnsupportedTool { kind: Seq<char> },
    EmptyReply,
    EmptyAnswer,
}

impl View for OpenRouterError {
    type V = ErrorView;

    open spec fn view(&self) -> ErrorView {
        match self {
            OpenRouterError::NotJson { fault } => ErrorView::NotJson { fault: fault@ },
            OpenRouterError::Malformed => ErrorView::Malformed,
            OpenRouterError::EmptyChoices => ErrorView::EmptyChoices,
            OpenRouterError::UnsupportedTool { kind } => ErrorView::UnsupportedTool { kind: kind@ },
            OpenRouterError::EmptyReply => ErrorView::EmptyReply,
            OpenRouterError::EmptyAnswer => ErrorView::EmptyAnswer,
        }
    }
}

/// The reply behind the words of an error.
pub open spec fn with_reply(words: Seq<char>, reply: Seq<char>) -> Seq<char> {
    words + "\n原始响应：\n"@ + reply
}

/// An error in words, for a reply to a conversation or, with `vision`, to an image.
pub open spec fn error_text(error: ErrorView, vision: bool, reply: Seq<char>) -> Seq<char> {
    match error {
        ErrorView::NotJson { fault } => if vision {
            with_reply("解析 OpenRouter 视觉响应失败："@ + fault, reply)
        } else {
            with_reply("解析 OpenRouter 原始 JSON 失败："@ + fault, reply)
        },
        ErrorView::Malformed => if vision {
            with_reply("解析 OpenRouter 视觉响应失败"@, reply)
        } else {
            with_reply("解析 OpenRouter 响应失败"@, reply)
        },
        ErrorView::EmptyChoices => with_reply("OpenRouter 响应 choices 为空"@, reply),
        ErrorView::UnsupportedTool { kind } => with_reply(
            "OpenRouter 响应包含不支持的工具类型："@ + kind,
            reply,
        ),
        ErrorView::EmptyReply => with_reply(
            "OpenRouter 响应既没有文本内容，也没有 tool_calls"@,
            reply,
        ),
        ErrorView::EmptyAnswer => "OpenRouter 视觉响应内容为空"@,
    }
}

fn push_reply(words: &mut String, reply: &str)
    ensures
        final(words)@ == with_reply(old(words)@, reply@),
{
    words.push_str("\n原始响应：\n");
    words.push_str(reply);
}

impl OpenRouterError {
    /// The error in words, for a reply to a conversation or, with `vision`, to an image.
    pub fn message(&self, vision: bool, reply: &str) -> (r: String)
        ensures
            r@ == error_text(self@, vision, reply@),
    {
        let mut r = match self {
            OpenRouterError::NotJson { fault } => {
                let mut words = if vision {
                    "解析 OpenRouter 视觉响应失败：".to_owned()
                } else {
                    "解析 OpenRouter 原始 JSON 失败：".to_owned()
                };
                words.push_str(fault);
                words
            },
            OpenRouterError::Malformed => if vision {
                "解析 OpenRouter 视觉响应失败".to_owned()
            } else {
                "解析 OpenRouter 响应失败".to_owned()
            },
            OpenRouterError::EmptyChoices => "OpenRouter 响应 choices 为空".to_owned(),
            OpenRouterError::UnsupportedTool { kind } => {
                let mut words = "OpenRouter 响应包含不支持的工具类型：".to_owned();
                words.push_str(kind);
                words
            },
            OpenRouterError::EmptyReply =>
                "OpenRouter 响应既没有文本内容，也没有 tool_calls".to_owned(),
            OpenRouterError::EmptyAnswer => {
                return "OpenRouter 视觉响应内容为空".to_owned();
            },
        };
        push_reply(&mut r, reply);
        r
    }
}

/// The reasoning of an answer as text: the first of its three fields that says anything.
pub open spec fn choice_reasoning(choice: ChoiceView) -> Option<Seq<char>> {
    let from_content = match choice.reasoning_content {
        Some(v) => reasoning_text(v),
        None => None,
    };
    let from_reasoning = match choice.reasoning {
        Some(v) => reasoning_text(v),
        None => None,
    };
    let from_details = match choice.reasoning_details {
        Some(v) => reasoning_text(v),
        None => None,
    };
    match from_content {
        Some(text) => Some(text),
        None => match from_reasoning {
            Some(text) => Some(text),
            None => from_details,
        },
    }
}

fn choice_reasoning_text(choice: &OpenRouterChoice) -> (r: Option<String>)
    ensures
        option_text(r) == choice_reasoning(choice@),
{
    if let Some(v) = &choice.reasoning_content {
        if let Some(text) = reasoning_value_to_text(v) {
            return Some(text);
        }
    }
    if let Some(v) = &choice.reasoning {
        if let Some(text) = reasoning_value_to_text(v) {
            return Some(text);
        }
    }
    match &choice.reasoning_details {
        Some(v) => reasoning_value_to_text(v),
        None => None,
    }
}

/// What a reply is read as. Reasoning details go back unchanged; without them the reasoning text
/// does.
pub open spec fn response_of(reply: ReplyView, raw: JsonView) -> Result<ResponseView, ErrorView> {
    if reply.choices.len() == 0 {
        Err(ErrorView::EmptyChoices)
    } else {
        let choice = reply.choices[0];
        match function_calls(choice.tool_calls) {
            Err(kind) => Err(ErrorView::UnsupportedTool { kind }),
            Ok(tool_calls) => if choice.content is None && tool_calls.len() == 0 {
                Err(ErrorView::EmptyReply)
            } else {
                Ok(
                    ResponseView {
                        content: choice.content,
                        reasoning: ReasoningStateView {
                            display_text: choice_reasoning(choice),
                            replay: match choice.reasoning_details {
                                Some(details) => Some(ReasoningView::Structured(details)),
                                None => match choice_reasoning(choice) {
                                    Some(text) => Some(ReasoningView::Text(text)),
                                    None => None,
                                },
                            },
                        },
                        tool_calls,
                        finish_reason: choice.finish_reason,
                        id: reply.id,
                        model: reply.model,
                        usage: reply.usage,
                        raw_response: raw,
                    },
                )
            },
        }
    }
}

/// What a reply is read as.
pub fn read_response(parsed: OpenRouterChatResponse, raw_response: Json) -> (r: Result<
    ToolChatResponse,
    OpenRouterError,
>)
    ensures
        match r {
            Ok(response) => response_of(parsed@, raw_response@) == Ok::<_, ErrorView>(response@),
            Err(e) => response_of(parsed@, raw_response@) == Err::<ResponseView, _>(e@),
        },
{
    if parsed.choices.len() == 0 {
        return Err(OpenRouterError::EmptyChoices);
    }
    let choice = &parsed.choices[0];
    assert(parsed@.choices[0] == choice@);
    let content = choice.content.clone();
    let display_text = choice_reasoning_text(choice);
    let replay = match &choice.reasoning_details {
        Some(details) => Some(ReasoningPayload::Structured(details.copy())),
        None => match &display_text {
            Some(text) => Some(ReasoningPayload::Text(text.clone())),
            None => None,
        },
    };
    let tool_calls = match take_function_calls(&choice.tool_calls) {
        Ok(calls) => calls,
        Err(kind) => {
            return Err(OpenRouterError::UnsupportedTool { kind });
        },
    };
    if content.is_none() && tool_calls.len() == 0 {
        return Err(OpenRouterError::EmptyReply);
    }
    let finish_reason = choice.finish_reason.clone();
    Ok(
        ToolChatResponse {
            content,
            reasoning: ReasoningState { display_text, replay },
            tool_calls,
            finish_reason,
            id: parsed.id,
            model: parsed.model,
            usage: parsed.usage,
            raw_response,
        },
    )
}

/// What a parsed reply is read as.
pub open spec fn response_text_of(parsed: Result<JsonView, Seq<char>>) -> Result<
    ResponseView,
    ErrorView,
> {
    match parsed {
        Ok(raw) => match reply_in(raw) {
            Some(reply) => response_of(reply, raw),
            None => Err(ErrorView::Malformed),
        },
        Err(fault) => Err(ErrorView::NotJson { fault }),
    }
}

/// What the text of a reply is read as. A text that writes a field twice is left to the
/// caller to refuse: the parsed value does not show it.
pub fn parse_openrouter_chat_response(response_text: &str) -> (r: Result<
    ToolChatResponse,
    OpenRouterError,
>)
    ensures
        match r {
            Ok(response) => response_text_of(json_read(response_text@)) == Ok::<_, ErrorView>(
                response@,
            ),
            Err(e) => response_text_of(json_read(response_text@)) == Err::<ResponseView, _>(e@),
        },
{
    match read_json(response_text) {
        Ok(raw) => match read_reply(&raw) {
            Some(parsed) => read_response(parsed, raw),
            None => Err(OpenRouterError::Malformed),
        },
        Err(fault) => Err(OpenRouterError::NotJson { fault }),
    }
}

/// The description of an image in a parsed reply.
pub open spec fn description_of(parsed: Result<JsonView, Seq<char>>) -> Result<
    Seq<char>,
    ErrorView,
> {
    match parsed {
        Err(fault) => Err(ErrorView::NotJson { fault }),
        Ok(raw) => match reply_in(raw) {
            None => Err(ErrorView::Malformed),
            Some(reply) => if reply.choices.len() == 0 || reply.choices[0].content is None {
                Err(ErrorView::EmptyAnswer)
            } else {
                Ok(reply.choices[0].content.unwrap())
            },
        },
    }
}

/// The description of an image in the text of a reply.
pub fn parse_vision_response(response_text: &str) -> (r: Result<String, OpenRouterError>)
    ensures
        match r {
            Ok(text) => description_of(json_read(response_text@)) == Ok::<_, ErrorView>(text@),
            Err(e) => description_of(json_read(response_text@)) == Err::<Seq<char>, _>(e@),
        },
{
    match read_json(response_text) {
        Err(fault) => Err(OpenRouterError::NotJson { fault }),
        Ok(raw) => match read_reply(&raw) {
            None => Err(OpenRouterError::Malformed),
            Some(reply) => {
                if reply.choices.len() == 0 {
                    return Err(OpenRouterError::EmptyAnswer);
                }
                assert(reply@.choices[0] == reply.choices@[0]@);
                match &reply.choices[0].content {
                    Some(text) => Ok(text.clone()),
                    None => Err(OpenRouterError::EmptyAnswer),
                }
            },
        },
    }
}

/// The reasoning details of an accepted reply go back with the next request unchanged, and no
/// reasoning text goes with them.
pub proof fn law_reasoning_details_go_back(
    reply: ReplyView,
    raw: JsonView,
    response: ResponseView,
    details: JsonView,
    fields: Seq<(Seq<char>, JsonView)>,
)
    requires
        response_of(reply, raw) == Ok::<_, ErrorView>(response),
        reply.choices[0].reasoning_details == Some(details),
    ensures
        with_reasoning(fields, response.as_message()->Assistant_reasoning) == fields.push(
            ("reasoning_details"@, details),
        ),
{
}

proof fn lemma_content_part(part: PartView)
    ensures
        match part {
            PartView::Text(text) => content_part(part).text_field("type"@) == Some("text"@)
                && content_part(part).text_field("text"@) == Some(text),
            PartView::Image(url) => content_part(part).text_field("type"@) == Some("image_url"@)
                && content_part(part).nested_text("image_url"@, "url"@) == Some(url),
        },
{
    lemma_wire_names();
    match part {
        PartView::Text(text) => {
            lemma_object2("type"@, JsonView::Text("text"@), "text"@, JsonView::Text(text));
        },
        PartView::Image(url) => {
            let image = object1("url"@, JsonView::Text(url));
            lemma_field_at(image->Object_0, "url"@, 0);
            lemma_object2("type"@, JsonView::Text("image_url"@), "image_url"@, image);
        },
    }
}

proof fn lemma_user_content(parts: Seq<PartView>)
    ensures
        holds_parts(user_content(parts), parts),
{
    match only_text(parts) {
        Some(text) => {
            assert(parts =~= seq![PartView::Text(text)]);
        },
        None => {
            let items = user_content(parts)->Array_0;
            assert forall|k: int| 0 <= k < parts.len() implies match #[trigger] parts[k] {
                PartView::Text(text) => items[k].text_field("type"@) == Some("text"@)
                    && items[k].text_field("text"@) == Some(text),
                PartView::Image(url) => items[k].text_field("type"@) == Some("image_url"@)
                    && items[k].nested_text("image_url"@, "url"@) == Some(url),
            } by {
                lemma_content_part(parts[k]);
            }
        },
    }
}

proof fn lemma_wire_message(message: MessageView)
    ensures
        holds_message(wire_message(message), message),
        message matches MessageView::Assistant { content, reasoning, tool_calls } ==> {
            &&& wire_message(message).field("reasoning"@) == match reasoning {
                Some(ReasoningView::Text(text)) => Some(JsonView::Text(text)),
                _ => None,
            }
            &&& wire_message(message).field("reasoning_details"@) == match reasoning {
                Some(ReasoningView::Structured(details)) => Some(details),
                _ => None,
            }
        },
{
    lemma_wire_names();
    match message {
        MessageView::System { content } => {
            lemma_object2("role"@, JsonView::Text("system"@), "content"@, JsonView::Text(content));
        },
        MessageView::User { content } => {
            lemma_user_content(content);
            lemma_object2("role"@, JsonView::Text("user"@), "content"@, user_content(content));
        },
        MessageView::Tool { tool_call_id, content } => {
            lemma_object3(
                "role"@,
                JsonView::Text("tool"@),
                "tool_call_id"@,
                JsonView::Text(tool_call_id),
                "content"@,
                JsonView::Text(content),
            );
        },
        MessageView::Assistant { content, reasoning, tool_calls } => {
            let first = Seq::empty().push(("role"@, JsonView::Text("assistant"@))).push(
                ("content"@, text_or_null(content)),
            );
            lemma_object2(
                "role"@,
                JsonView::Text("assistant"@),
                "content"@,
                text_or_null(content),
            );
            lemma_no_field(first, "tool_calls"@);
            lemma_no_field(first, "reasoning"@);
            lemma_no_field(first, "reasoning_details"@);
            let (name, value) = match reasoning {
                Some(ReasoningView::Text(text)) => ("reasoning"@, Some(JsonView::Text(text))),
                Some(ReasoningView::Structured(details)) => ("reasoning_details"@, Some(details)),
                None => ("reasoning"@, None),
            };
            let second = with_reasoning(first, reasoning);
            assert(second == with_field(first, name, value));
            lemma_more_fields(first, name, value, "role"@);
            lemma_more_fields(first, name, value, "content"@);
            lemma_more_fields(first, name, value, "tool_calls"@);
            lemma_more_fields(first, name, value, "reasoning"@);
            lemma_more_fields(first, name, value, "reasoning_details"@);
            let calls = wire_calls(tool_calls);
            lemma_more_fields(second, "tool_calls"@, calls, "role"@);
            lemma_more_fields(second, "tool_calls"@, calls, "content"@);
            lemma_more_fields(second, "tool_calls"@, calls, "tool_calls"@);
            lemma_more_fields(second, "tool_calls"@, calls, "reasoning"@);
            lemma_more_fields(second, "tool_calls"@, calls, "reasoning_details"@);
            lemma_holds_calls(wire_message(message), tool_calls);
        },
    }
}

/// A request holds the whole conversation: for each message, in order, its role and its own content,
/// the calls that it makes or the call that it answers, and the reasoning that goes back, as text or
/// as it came. It names the model and the limits as they are given, and offers exactly the given
/// tools.
pub proof fn law_request_holds_the_conversation(
    model: Seq<char>,
    max_tokens: i32,
    effort: Seq<char>,
    messages: Seq<MessageView>,
    tools: Seq<ToolDefinitionView>,
)
    ensures
        ({
            let request = chat_request(model, max_tokens, effort, messages, tools);
            &&& request.text_field("model"@) == Some(model)
            &&& request.nested_text("reasoning"@, "effort"@) == Some(effort)
            &&& max_tokens >= 0 ==> request.field("max_completion_tokens"@) == Some(
                JsonView::Unsigned(max_tokens as u64),
            )
            &&& max_tokens < 0 ==> request.field("max_completion_tokens"@) == Some(
                JsonView::Negative(max_tokens as i64),
            )
            &&& offers_tools(request, tools)
            &&& (request.array_field("messages"@) matches Some(items) && items.len()
                == messages.len() && forall|i: int|
                0 <= i < messages.len() ==> {
                    &&& holds_message(items[i], #[trigger] messages[i])
                    &&& messages[i] matches MessageView::Assistant {
                        content,
                        reasoning: Some(ReasoningView::Text(text)),
                        tool_calls,
                    } ==> items[i].text_field("reasoning"@) == Some(text)
                    &&& messages[i] matches MessageView::Assistant {
                        content,
                        reasoning: Some(ReasoningView::Structured(details)),
                        tool_calls,
                    } ==> items[i].field("reasoning_details"@) == Some(details)
                })
        }),
{
    reveal_strlit("model");
    reveal_strlit("messages");
    reveal_strlit("max_completion_tokens");
    reveal_strlit("reasoning");
    reveal_strlit("response_format");
    reveal_strlit("effort");
    reveal_strlit("summary");
    reveal_strlit("tools");
    reveal_strlit("tool_choice");
    assert("model"@[0] == 'm' && "tools"@[0] == 't');
    assert("model"@.len() == 5 && "messages"@.len() == 8 && "reasoning"@.len() == 9);
    assert("max_completion_tokens"@.len() == 21 && "response_format"@.len() == 15);
    assert("tools"@.len() == 5 && "tool_choice"@.len() == 11);
    assert("effort"@.len() == 6 && "summary"@.len() == 7);
    let request = chat_request(model, max_tokens, effort, messages, tools);
    lemma_object2("effort"@, JsonView::Text(effort), "summary"@, JsonView::Text("auto"@));
    let first = Seq::empty().push(("model"@, JsonView::Text(model))).push(
        ("messages"@, wire_messages(messages)),
    ).push(("max_completion_tokens"@, int_view(max_tokens as int))).push(
        ("reasoning"@, reasoning_field(effort)),
    ).push(("response_format"@, object1("type"@, JsonView::Text("text"@))));
    lemma_field_at(first, "model"@, 0);
    lemma_field_at(first, "messages"@, 1);
    lemma_field_at(first, "max_completion_tokens"@, 2);
    lemma_field_at(first, "reasoning"@, 3);
    lemma_no_field(first, "tools"@);
    lemma_no_field(first, "tool_choice"@);
    let second = with_field(first, "tools"@, wire_tools(tools));
    lemma_more_fields(first, "tools"@, wire_tools(tools), "model"@);
    lemma_more_fields(first, "tools"@, wire_tools(tools), "messages"@);
    lemma_more_fields(first, "tools"@, wire_tools(tools), "max_completion_tokens"@);
    lemma_more_fields(first, "tools"@, wire_tools(tools), "reasoning"@);
    lemma_more_fields(first, "tools"@, wire_tools(tools), "tools"@);
    lemma_more_fields(first, "tools"@, wire_tools(tools), "tool_choice"@);
    lemma_more_fields(second, "tool_choice"@, wire_choice(tools), "model"@);
    lemma_more_fields(second, "tool_choice"@, wire_choice(tools), "messages"@);
    lemma_more_fields(second, "tool_choice"@, wire_choice(tools), "max_completion_tokens"@);
    lemma_more_fields(second, "tool_choice"@, wire_choice(tools), "reasoning"@);
    lemma_more_fields(second, "tool_choice"@, wire_choice(tools), "tools"@);
    lemma_more_fields(second, "tool_choice"@, wire_choice(tools), "tool_choice"@);
    lemma_offers_tools(request, tools);
    let items = request.array_field("messages"@).unwrap();
    assert forall|i: int| 0 <= i < messages.len() implies {
        &&& holds_message(items[i], #[trigger] messages[i])
        &&& messages[i] matches MessageView::Assistant {
            content,
            reasoning: Some(ReasoningView::Text(text)),
            tool_calls,
        } ==> items[i].text_field("reasoning"@) == Some(text)
        &&& messages[i] matches MessageView::Assistant {
            content,
            reasoning: Some(ReasoningView::Structured(details)),
            tool_calls,
        } ==> items[i].field("reasoning_details"@) == Some(details)
    } by {
        lemma_wire_message(messages[i]);
    }
}

proof fn lemma_first_choice(items: Seq<JsonView>, choices: Seq<ChoiceView>)
    requires
        choices_in(items) == Some(choices),
    ensures
        choices.len() == items.len(),
        items.len() > 0 ==> choice_in(items[0]) == Some(choices[0]),
    decreases items.len(),
{
    if items.len() > 1 {
        assert(items.drop_last()[0] == items[0]);
        lemma_first_choice(items.drop_last(), choices_in(items.drop_last()).unwrap());
    } else if items.len() == 1 {
        assert(items.drop_last() =~= Seq::empty());
        assert(choices_in(items.drop_last()) == Some(Seq::<ChoiceView>::empty()));
    }
}

/// What is read of an accepted reply is what its first answer says: the text, the calls with their
/// ids, names and arguments, and why it ended, and besides the id, the model and the token counts of
/// the reply. The reply itself is kept as it came.
pub proof fn law_answer_is_read_from_the_reply(raw: JsonView, response: ResponseView)
    requires
        raw is Object,
        response_text_of(Ok(raw)) == Ok::<_, ErrorView>(response),
    ensures
        response.raw_response == raw,
        response.id == raw.text_field("id"@),
        response.model == raw.text_field("model"@),
        usage_is_of(response.usage, raw),
        raw.array_field("choices"@) matches Some(items) && items.len() > 0 && (items[0] is Object
            ==> {
            &&& response.finish_reason == items[0].text_field("finish_reason"@)
            &&& (items[0].field("message"@) matches Some(message) && (message is Object ==> {
                &&& response.content == message.text_field("content"@)
                &&& calls_are_of(response.tool_calls, message)
                &&& message.field("reasoning_details"@) matches Some(details) ==> details
                    == JsonView::Null || response.reasoning.replay == Some(
                    ReasoningView::Structured(details),
                )
            }))
        }),
{
    let reply = reply_in(raw).unwrap();
    let items = raw.array_field("choices"@).unwrap();
    lemma_first_choice(items, reply.choices);
    lemma_usage_is_of(raw);
    if items[0] is Object {
        let message = items[0].field("message"@).unwrap();
        if message is Object {
            lemma_calls_are_of(
                message,
                message_calls(message).unwrap(),
                response.tool_calls,
            );
        }
    }
}

/// A request to describe an image asks one question of the model: the words first, and then the image
/// under its address.
pub proof fn law_vision_request_holds_question_and_image(
    model: Seq<char>,
    max_tokens: i32,
    image_data_url: Seq<char>,
    prompt: Seq<char>,
)
    ensures
        ({
            let request = vision_request(model, max_tokens, image_data_url, prompt);
            &&& request.text_field("model"@) == Some(model)
            &&& request.field("max_completion_tokens"@) == Some(int_view(max_tokens as int))
            &&& request.array_field("messages"@) matches Some(messages) && messages.len() == 1
                && messages[0].text_field("role"@) == Some("user"@) && (messages[0].field(
                "content"@,
            ) matches Some(content) && holds_parts(
                content,
                seq![PartView::Text(prompt), PartView::Image(image_data_url)],
            ))
        }),
{
    reveal_strlit("model");
    reveal_strlit("messages");
    reveal_strlit("max_completion_tokens");
    reveal_strlit("role");
    reveal_strlit("content");
    assert("model"@.len() == 5 && "messages"@.len() == 8 && "max_completion_tokens"@.len() == 21);
    assert("role"@.len() == 4 && "content"@.len() == 7);
    let request = vision_request(model, max_tokens, image_data_url, prompt);
    lemma_field_at(request->Object_0, "model"@, 0);
    lemma_field_at(request->Object_0, "messages"@, 1);
    lemma_field_at(request->Object_0, "max_completion_tokens"@, 2);
    let message = request.array_field("messages"@).unwrap()[0];
    lemma_field_at(message->Object_0, "role"@, 0);
    lemma_field_at(message->Object_0, "content"@, 1);
    lemma_content_part(PartView::Text(prompt));
    lemma_content_part(PartView::Image(image_data_url));
}

/// The description of an image is the text of the first answer as it stands in the reply. A reply
/// whose first answer has no text gives none.
pub proof fn law_the_text_is_that_of_the_first_answer(
    raw: JsonView,
    reply: ReplyView,
    items: Seq<JsonView>,
    message: JsonView,
)
    requires
        raw is Object,
        reply_in(raw) == Some(reply),
        raw.array_field("choices"@) == Some(items),
        items.len() > 0,
        items[0] is Object,
        items[0].field("message"@) == Some(message),
        message is Object,
    ensures
        match message.text_field("content"@) {
            Some(text) => description_of(Ok(raw)) == Ok::<_, ErrorView>(text),
            None => description_of(Ok(raw)) is Err,
        },
{
    lemma_first_choice(items, reply.choices);
}

} // verus!
