//! The OpenAI Responses interface. The whole context travels with each request: nothing is stored
//! on the server.

use vstd::prelude::*;

use crate::ai_provider::chat_wire::{lemma_more_fields, lemma_object2, lemma_object3};
use crate::ai_provider::{
    messages_view, parts_view, ChatUsage, MessageView, PartView, ReasoningPayload, ReasoningState,
    ReasoningStateView, ReasoningView, ResponseView, ToolChatContentPart, ToolChatMessage,
    ToolChatResponse, ToolChatUserContent,
};
use crate::json::{
    int_view, is_text, items_view, json_parsed, json_read, lemma_field_at, lemma_no_field, lookup,
    object1, object2, object3, object4, object5, option_json, option_text, parse_json, read_json,
    with_field, Fields, Items, Json, JsonView,
};
use crate::text::{
    blank, first_chars, first_chars_of, has_text, is_blank, join, join_of, lemma_joined,
    quote_option, quoted_option, same_text, texts, trim, trim_end_char, trim_end_char_of, trim_of,
};
use crate::tools::{
    calls_view, definitions_view, ToolCall, ToolCallView, ToolDefinition, ToolDefinitionView,
};

verus! {

pub const DEFAULT_BASE_URL: &'static str = "https://api.openai.com/v1";

pub const RESPONSES_REPLAY_PROVIDER: &'static str = "openai_responses";

/// What a provider of this kind is set up with.
#[derive(Debug, PartialEq, Eq)]
pub struct OpenAIResponsesProvider {
    pub api_key: String,
    pub base_url: String,
    pub model: String,
    pub max_tokens: Option<i32>,
    pub reasoning_effort: String,
}

/// The address that requests go to: without trailing slashes, and the default where none is given.
pub open spec fn base_url_of(base_url: Seq<char>) -> Seq<char> {
    if is_blank(base_url) {
        DEFAULT_BASE_URL@
    } else {
        trim_end_char_of(trim_of(base_url), '/')
    }
}

impl OpenAIResponsesProvider {
    pub fn new(
        api_key: String,
        base_url: String,
        model: String,
        max_tokens: Option<i32>,
        reasoning_effort: String,
    ) -> (r: OpenAIResponsesProvider)
        ensures
            r.api_key@ == api_key@,
            r.base_url@ == base_url_of(base_url@),
            r.model@ == model@,
            r.max_tokens == max_tokens,
            r.reasoning_effort@ == reasoning_effort@,
    {
        let address = if blank(&base_url) {
            DEFAULT_BASE_URL.to_owned()
        } else {
            let trimmed = trim(&base_url);
            trim_end_char(&trimmed, '/')
        };
        OpenAIResponsesProvider { api_key, base_url: address, model, max_tokens, reasoning_effort }
    }

    /// The address of the responses endpoint.
    pub fn endpoint(&self) -> (r: String)
        ensures
            r@ == self.base_url@ + "/responses"@,
    {
        let mut r = self.base_url.clone();
        r.push_str("/responses");
        r
    }
}

/// What is told of a refused request: the message in the reply, or the start of the reply.
pub open spec fn error_detail_of(parsed: Option<JsonView>, reply: Seq<char>) -> Seq<char> {
    match parsed {
        Some(body) => match body.nested_text("error"@, "message"@) {
            Some(message) => message,
            None => first_chars_of(reply, 1000),
        },
        None => first_chars_of(reply, 1000),
    }
}

/// What is told of a refused request, given what the reply holds.
pub fn error_detail_from(parsed: &Option<Json>, reply: &str) -> (r: String)
    ensures
        r@ == error_detail_of(option_json(*parsed), reply@),
{
    match parsed {
        Some(body) => match body.nested_text_at("error", "message") {
            Some(message) => message,
            None => first_chars(reply, 1000),
        },
        None => first_chars(reply, 1000),
    }
}

/// What is told of a refused request.
pub fn error_detail(reply: &str) -> (r: String)
    ensures
        r@ == error_detail_of(json_parsed(reply@), reply@),
{
    let parsed = parse_json(reply);
    error_detail_from(&parsed, reply)
}

/// A piece of a user message as an input item.
pub open spec fn input_part(part: PartView) -> JsonView {
    match part {
        PartView::Text(text) => object2("type"@, JsonView::Text("input_text"@), "text"@, JsonView::Text(text)),
        PartView::Image(data_url) => object3("type"@, JsonView::Text("input_image"@), "image_url"@, JsonView::Text(data_url), "detail"@, JsonView::Text("high"@)),
    }
}

/// The pieces of a user message as input items.
pub open spec fn input_parts(parts: Seq<PartView>) -> Seq<JsonView> {
    Seq::new(parts.len(), |i: int| input_part(parts[i]))
}

/// The pieces of a user message as input items.
pub fn responses_user_content(content: &ToolChatUserContent) -> (r: Json)
    ensures
        r@ == JsonView::Array(input_parts(content@)),
{
    let parts = content.parts();
    let mut items = Items::new();
    let mut i: usize = 0;
    while i < parts.len()
        invariant
            i <= parts@.len(),
            parts_view(parts@) == content@,
            items@ == input_parts(content@).take(i as int),
        decreases parts@.len() - i,
    {
        let mut fields = Fields::new();
        assert(content@[i as int] == parts@[i as int]@);
        match &parts[i] {
            ToolChatContentPart::Text { text } => {
                fields.put_text("type", "input_text");
                fields.put_text("text", text);
            },
            ToolChatContentPart::Image { data_url } => {
                fields.put_text("type", "input_image");
                fields.put_text("image_url", data_url);
                fields.put_text("detail", "high");
            },
        }
        items.push(fields.done());
        assert(input_parts(content@).take(i + 1) =~= input_parts(content@).take(i as int).push(
            input_part(content@[i as int]),
        ));
        i += 1;
    }
    assert(input_parts(content@).take(i as int) =~= input_parts(content@));
    items.done()
}

/// The output items that a payload of this provider holds.
pub open spec fn replay_items(reasoning: ReasoningView) -> Option<Seq<JsonView>> {
    match reasoning {
        ReasoningView::Text(_) => None,
        ReasoningView::Structured(payload) => if payload.text_field("provider"@) == Some(
            RESPONSES_REPLAY_PROVIDER@,
        ) {
            payload.array_field("output_items"@)
        } else {
            None
        },
    }
}

/// The output items that a payload of this provider holds.
pub fn responses_replay_items(reasoning: &ReasoningPayload) -> (r: Option<&Vec<Json>>)
    ensures
        match r {
            Some(items) => replay_items(reasoning@) == Some(items_view(items@)),
            None => replay_items(reasoning@) is None,
        },
{
    match reasoning {
        ReasoningPayload::Text(_) => None,
        ReasoningPayload::Structured(payload) => {
            match payload.text_at("provider") {
                Some(provider) => {
                    if same_text(&provider, RESPONSES_REPLAY_PROVIDER) {
                        payload.array_at("output_items")
                    } else {
                        None
                    }
                },
                None => None,
            }
        },
    }
}

/// A tool call as an input item.
pub open spec fn call_item(call: ToolCallView) -> JsonView {
    object4("type"@, JsonView::Text("function_call"@), "call_id"@, JsonView::Text(call.id), "name"@, JsonView::Text(call.name), "arguments"@, JsonView::Text(call.arguments))
}

/// Tool calls as input items.
pub open spec fn call_items(calls: Seq<ToolCallView>) -> Seq<JsonView> {
    Seq::new(calls.len(), |i: int| call_item(calls[i]))
}

/// The input items that a message becomes. A reply whose output items were kept is repeated by
/// exactly those items.
pub open spec fn message_items(message: MessageView) -> Seq<JsonView> {
    match message {
        MessageView::System { content } => seq![
            object2("role"@, JsonView::Text("system"@), "content"@, JsonView::Array( seq![ object2("type"@, JsonView::Text("input_text"@), "text"@, JsonView::Text(content)), ], )),
        ],
        MessageView::User { content } => seq![
            object2("role"@, JsonView::Text("user"@), "content"@, JsonView::Array(input_parts(content))),
        ],
        MessageView::Assistant { content, reasoning, tool_calls } => {
            let replayed = match reasoning {
                Some(payload) => replay_items(payload),
                None => None,
            };
            match replayed {
                Some(items) => items,
                None => {
                    let said = match content {
                        Some(text) => if text.len() > 0 {
                            seq![
                                object2("role"@, JsonView::Text("assistant"@), "content"@, JsonView::Text(text)),
                            ]
                        } else {
                            Seq::empty()
                        },
                        None => Seq::empty(),
                    };
                    said + call_items(tool_calls)
                },
            }
        },
        MessageView::Tool { tool_call_id, content } => seq![
            object3("type"@, JsonView::Text("function_call_output"@), "call_id"@, JsonView::Text(tool_call_id), "output"@, JsonView::Text(content)),
        ],
    }
}

/// The input items that messages become, in order.
pub open spec fn input_items(messages: Seq<MessageView>) -> Seq<JsonView>
    decreases messages.len(),
{
    if messages.len() == 0 {
        Seq::empty()
    } else {
        input_items(messages.drop_last()) + message_items(messages.last())
    }
}

/// Appends the input items that a message becomes.
fn push_message_items(items: &mut Items, message: &ToolChatMessage)
    ensures
        final(items)@ == old(items)@ + message_items(message@),
{
    let ghost before = items@;
    match message {
        ToolChatMessage::System { content } => {
            let mut part = Fields::new();
            part.put_text("type", "input_text");
            part.put_text("text", content);
            let mut parts = Items::new();
            parts.push(part.done());
            let mut fields = Fields::new();
            fields.put_text("role", "system");
            fields.put("content", parts.done());
            items.push(fields.done());
            assert(items@ =~= before + message_items(message@));
        },
        ToolChatMessage::User { content } => {
            let mut fields = Fields::new();
            fields.put_text("role", "user");
            fields.put("content", responses_user_content(content));
            items.push(fields.done());
            assert(items@ =~= before + message_items(message@));
        },
        ToolChatMessage::Assistant { content, reasoning, tool_calls } => {
            let replayed = match reasoning {
                Some(payload) => responses_replay_items(payload),
                None => None,
            };
            if let Some(kept) = replayed {
                let mut i: usize = 0;
                while i < kept.len()
                    invariant
                        i <= kept@.len(),
                        items@ =~= before + items_view(kept@).take(i as int),
                    decreases kept@.len() - i,
                {
                    items.push(kept[i].copy());
                    assert(items_view(kept@).take(i + 1) =~= items_view(kept@).take(i as int).push(
                        kept@[i as int]@,
                    ));
                    i += 1;
                }
                assert(items_view(kept@).take(i as int) =~= items_view(kept@));
                return;
            }
            if let Some(text) = content {
                if !text.is_empty() {
                    let mut fields = Fields::new();
                    fields.put_text("role", "assistant");
                    fields.put_text("content", text);
                    items.push(fields.done());
                }
            }
            let ghost said = items@;
            let ghost calls = calls_view(tool_calls@);
            let mut i: usize = 0;
            while i < tool_calls.len()
                invariant
                    i <= tool_calls@.len(),
                    calls == calls_view(tool_calls@),
                    items@ =~= said + call_items(calls).take(i as int),
                decreases tool_calls@.len() - i,
            {
                let mut fields = Fields::new();
                fields.put_text("type", "function_call");
                fields.put_text("call_id", &tool_calls[i].id);
                fields.put_text("name", &tool_calls[i].name);
                fields.put_text("arguments", &tool_calls[i].arguments);
                items.push(fields.done());
                assert(call_items(calls).take(i + 1) =~= call_items(calls).take(i as int).push(
                    call_item(calls[i as int]),
                ));
                i += 1;
            }
            assert(call_items(calls).take(i as int) =~= call_items(calls));
            assert(items@ =~= before + message_items(message@));
        },
        ToolChatMessage::Tool { tool_call_id, content } => {
            let mut fields = Fields::new();
            fields.put_text("type", "function_call_output");
            fields.put_text("call_id", tool_call_id);
            fields.put_text("output", content);
            items.push(fields.done());
            assert(items@ =~= before + message_items(message@));
        },
    }
}

/// The input items of a request.
pub fn responses_input(messages: &Vec<ToolChatMessage>) -> (r: Json)
    ensures
        r@ == JsonView::Array(input_items(messages_view(messages@))),
{
    let ghost all = messages_view(messages@);
    let mut items = Items::new();
    let mut i: usize = 0;
    while i < messages.len()
        invariant
            i <= messages@.len(),
            all == messages_view(messages@),
            items@ == input_items(all.take(i as int)),
        decreases messages@.len() - i,
    {
        push_message_items(&mut items, &messages[i]);
        assert(all.take(i + 1).drop_last() =~= all.take(i as int));
        i += 1;
    }
    assert(all.take(i as int) =~= all);
    items.done()
}

/// A tool as the request names it.
pub open spec fn function_tool(tool: ToolDefinitionView) -> JsonView {
    object5(
        "type"@,
        JsonView::Text("function"@),
        "name"@,
        JsonView::Text(tool.name),
        "description"@,
        JsonView::Text(tool.description),
        "parameters"@,
        tool.parameters,
        "strict"@,
        JsonView::Bool(false),
    )
}

/// The tools of a request, where there are any.
pub open spec fn function_tools(tools: Seq<ToolDefinitionView>) -> Option<JsonView> {
    if tools.len() == 0 {
        None
    } else {
        Some(JsonView::Array(Seq::new(tools.len(), |i: int| function_tool(tools[i]))))
    }
}

/// The tools of a request, where there are any.
fn tools_json(tools: &Vec<ToolDefinition>) -> (r: Option<Json>)
    ensures
        option_json(r) == function_tools(definitions_view(tools@)),
{
    if tools.len() == 0 {
        return None;
    }
    let ghost listed = Seq::new(
        tools@.len(),
        |i: int| function_tool(definitions_view(tools@)[i]),
    );
    let mut items = Items::new();
    let mut i: usize = 0;
    while i < tools.len()
        invariant
            i <= tools@.len(),
            listed == Seq::new(
                tools@.len(),
                |i: int| function_tool(definitions_view(tools@)[i]),
            ),
            items@ == listed.take(i as int),
        decreases tools@.len() - i,
    {
        let mut fields = Fields::new();
        fields.put_text("type", "function");
        fields.put_text("name", tools[i].name);
        fields.put_text("description", tools[i].description);
        fields.put("parameters", tools[i].parameters.copy());
        fields.put("strict", Json::Bool(false));
        items.push(fields.done());
        assert(listed.take(i + 1) =~= listed.take(i as int).push(listed[i as int]));
        i += 1;
    }
    assert(listed.take(i as int) =~= listed);
    assert(listed =~= Seq::new(
        definitions_view(tools@).len(),
        |i: int| function_tool(definitions_view(tools@)[i]),
    ));
    Some(items.done())
}

/// How hard the model is asked to reason, where that is not left to it.
pub open spec fn reasoning_field(effort: Seq<char>) -> Option<JsonView> {
    if effort == "auto"@ {
        None
    } else {
        Some(object2("effort"@, JsonView::Text(effort), "summary"@, JsonView::Text("auto"@)))
    }
}

/// A request, with the tools and the tool choice as given.
pub open spec fn request_with(
    model: Seq<char>,
    max_tokens: Option<i32>,
    effort: Seq<char>,
    messages: Seq<MessageView>,
    tools: Option<JsonView>,
    tool_choice: Option<JsonView>,
    session_id: Option<Seq<char>>,
) -> JsonView {
    let fields = Seq::empty().push(("model"@, JsonView::Text(model))).push(
        ("input"@, JsonView::Array(input_items(messages))),
    ).push(("store"@, JsonView::Bool(false))).push(
        (
            "include"@,
            JsonView::Array(seq![JsonView::Text("reasoning.encrypted_content"@)]),
        ),
    );
    let limited = with_field(
        fields,
        "max_output_tokens"@,
        match max_tokens {
            Some(n) => Some(int_view(n as int)),
            None => None,
        },
    );
    let reasoned = with_field(limited, "reasoning"@, reasoning_field(effort));
    let tooled = with_field(
        with_field(reasoned, "tools"@, tools),
        "tool_choice"@,
        tool_choice,
    );
    JsonView::Object(
        with_field(
            tooled,
            "prompt_cache_key"@,
            match session_id {
                Some(id) => Some(JsonView::Text(id)),
                None => None,
            },
        ),
    )
}

/// A chat request: the tool choice is left to the model where there are tools.
pub open spec fn chat_request(
    model: Seq<char>,
    max_tokens: Option<i32>,
    effort: Seq<char>,
    messages: Seq<MessageView>,
    tools: Seq<ToolDefinitionView>,
    session_id: Option<Seq<char>>,
) -> JsonView {
    request_with(
        model,
        max_tokens,
        effort,
        messages,
        function_tools(tools),
        if tools.len() == 0 {
            None
        } else {
            Some(JsonView::Text("auto"@))
        },
        session_id,
    )
}

/// A request, with the tools and the tool choice as given.
fn request_json(
    model: &str,
    max_tokens: Option<i32>,
    reasoning_effort: &str,
    messages: &Vec<ToolChatMessage>,
    tools: Option<Json>,
    tool_choice: Option<Json>,
    session_id: &Option<String>,
) -> (r: Json)
    ensures
        r@ == request_with(
            model@,
            max_tokens,
            reasoning_effort@,
            messages_view(messages@),
            option_json(tools),
            option_json(tool_choice),
            option_text(*session_id),
        ),
{
    let mut fields = Fields::new();
    fields.put_text("model", model);
    fields.put("input", responses_input(messages));
    fields.put("store", Json::Bool(false));
    let mut kept = Items::new();
    kept.push(Json::text("reasoning.encrypted_content"));
    fields.put("include", kept.done());
    if let Some(n) = max_tokens {
        fields.put("max_output_tokens", Json::integer(n as i64));
    }
    if !same_text(reasoning_effort, "auto") {
        let mut reasoning = Fields::new();
        reasoning.put_text("effort", reasoning_effort);
        reasoning.put_text("summary", "auto");
        fields.put("reasoning", reasoning.done());
    }
    fields.put_some("tools", tools);
    fields.put_some("tool_choice", tool_choice);
    if let Some(id) = session_id {
        fields.put_text("prompt_cache_key", id);
    }
    fields.done()
}

/// A chat request: the tool choice is left to the model where there are tools.
pub fn build_openai_responses_request(
    model: &str,
    max_tokens: Option<i32>,
    reasoning_effort: &str,
    messages: &Vec<ToolChatMessage>,
    tools: &Vec<ToolDefinition>,
    session_id: &Option<String>,
) -> (r: Json)
    ensures
        r@ == chat_request(
            model@,
            max_tokens,
            reasoning_effort@,
            messages_view(messages@),
            definitions_view(tools@),
            option_text(*session_id),
        ),
{
    let choice = if tools.len() == 0 {
        None
    } else {
        Some(Json::text("auto"))
    };
    request_json(
        model,
        max_tokens,
        reasoning_effort,
        messages,
        tools_json(tools),
        choice,
        session_id,
    )
}

/// A request to describe an image.
pub fn build_vision_request(
    model: &str,
    max_tokens: Option<i32>,
    image_data_url: &str,
    prompt: &str,
) -> (r: Json)
    ensures
        r@ == chat_request(
            model@,
            max_tokens,
            "auto"@,
            seq![
                MessageView::User {
                    content: Seq::empty().push(PartView::Text(prompt@)).push(
                        PartView::Image(image_data_url@),
                    ),
                },
            ],
            Seq::empty(),
            None,
        ),
{
    let mut parts: Vec<ToolChatContentPart> = Vec::new();
    parts.push(ToolChatContentPart::Text { text: prompt.to_owned() });
    parts.push(ToolChatContentPart::Image { data_url: image_data_url.to_owned() });
    assert(parts_view(parts@) =~= Seq::empty().push(PartView::Text(prompt@)).push(
        PartView::Image(image_data_url@),
    ));
    let mut messages: Vec<ToolChatMessage> = Vec::new();
    messages.push(ToolChatMessage::User { content: ToolChatUserContent::from_parts(parts) });
    assert(messages_view(messages@) =~= seq![messages@[0]@]);
    let tools: Vec<ToolDefinition> = Vec::new();
    assert(definitions_view(tools@) =~= Seq::empty());
    build_openai_responses_request(model, max_tokens, "auto", &messages, &tools, &None)
}

/// A request to search the web: the search has to be made.
pub fn build_search_request(
    model: &str,
    max_tokens: Option<i32>,
    reasoning_effort: &str,
    question: &str,
) -> (r: Json)
    ensures
        r@ == request_with(
            model@,
            max_tokens,
            reasoning_effort@,
            seq![MessageView::User { content: seq![PartView::Text(question@)] }],
            Some(JsonView::Array(seq![object1("type"@, JsonView::Text("web_search"@))])),
            Some(JsonView::Text("required"@)),
            None,
        ),
{
    let mut messages: Vec<ToolChatMessage> = Vec::new();
    messages.push(ToolChatMessage::User { content: ToolChatUserContent::text(question) });
    assert(messages_view(messages@) =~= seq![messages@[0]@]);
    let mut search = Fields::new();
    search.put_text("type", "web_search");
    let mut tools = Items::new();
    tools.push(search.done());
    request_json(
        model,
        max_tokens,
        reasoning_effort,
        &messages,
        Some(tools.done()),
        Some(Json::text("required")),
        &None,
    )
}

/// Why a reply is not accepted.
#[derive(Debug, PartialEq, Eq)]
pub enum ResponsesError {
    InvalidJson { fault: String },
    Failed { message: String },
    Incomplete { status: Option<String>, reason: String },
    MissingOutput,
    MissingCallId,
    MissingCallName,
    MissingCallArguments,
    EmptyReply,
    EmptyDescription,
    EmptySearch,
    NoFinishedSearch,
}

/// What an error holds.
pub enum ResponsesErrorView {
    InvalidJson { fault: Seq<char> },
    Failed { message: Seq<char> },
    Incomplete { status: Option<Seq<char>>, reason: Seq<char> },
    MissingOutput,
    MissingCallId,
    MissingCallName,
    MissingCallArguments,
    EmptyReply,
    EmptyDescription,
    EmptySearch,
    NoFinishedSearch,
}

impl View for ResponsesError {
    type V = ResponsesErrorView;

    open spec fn view(&self) -> ResponsesErrorView {
        match self {
            ResponsesError::InvalidJson { fault } => ResponsesErrorView::InvalidJson {
                fault: fault@,
            },
            ResponsesError::Failed { message } => ResponsesErrorView::Failed { message: message@ },
            ResponsesError::Incomplete { status, reason } => ResponsesErrorView::Incomplete {
                status: option_text(*status),
                reason: reason@,
            },
            ResponsesError::MissingOutput => ResponsesErrorView::MissingOutput,
            ResponsesError::MissingCallId => ResponsesErrorView::MissingCallId,
            ResponsesError::MissingCallName => ResponsesErrorView::MissingCallName,
            ResponsesError::MissingCallArguments => ResponsesErrorView::MissingCallArguments,
            ResponsesError::EmptyReply => ResponsesErrorView::EmptyReply,
            ResponsesError::EmptyDescription => ResponsesErrorView::EmptyDescription,
            ResponsesError::EmptySearch => ResponsesErrorView::EmptySearch,
            ResponsesError::NoFinishedSearch => ResponsesErrorView::NoFinishedSearch,
        }
    }
}

impl ResponsesError {
    /// The error in words.
    pub fn message(&self) -> (r: String)
        ensures
            r@ == responses_error_text(self@),
    {
        match self {
            ResponsesError::InvalidJson { fault } => {
                let mut r = "解析 OpenAI Responses 原始 JSON 失败：".to_owned();
                r.push_str(fault);
                r
            },
            ResponsesError::Failed { message } => {
                let mut r = "OpenAI Responses 生成失败：".to_owned();
                r.push_str(message);
                r
            },
            ResponsesError::Incomplete { status, reason } => {
                let mut r = "OpenAI Responses 生成未完成，状态：".to_owned();
                r.push_str(&quote_option(status));
                r.push_str("，原因：");
                r.push_str(reason);
                r
            },
            ResponsesError::MissingOutput => "OpenAI Responses 响应缺少 output 数组".to_owned(),
            ResponsesError::MissingCallId =>
                "OpenAI Responses function_call 缺少 call_id".to_owned(),
            ResponsesError::MissingCallName => "OpenAI Responses function_call 缺少 name".to_owned(),
            ResponsesError::MissingCallArguments =>
                "OpenAI Responses function_call 缺少 arguments".to_owned(),
            ResponsesError::EmptyReply =>
                "OpenAI Responses 响应既没有文本内容，也没有 function_call（状态：Some(\"completed\")）".to_owned(),
            ResponsesError::EmptyDescription => "OpenAI Responses 视觉响应内容为空".to_owned(),
            ResponsesError::EmptySearch => "OpenAI Responses 联网搜索响应内容为空".to_owned(),
            ResponsesError::NoFinishedSearch =>
                "OpenAI Responses 未返回已完成的联网搜索调用".to_owned(),
        }
    }
}

/// An error in words.
pub open spec fn responses_error_text(error: ResponsesErrorView) -> Seq<char> {
    match error {
        ResponsesErrorView::InvalidJson { fault } =>
            "解析 OpenAI Responses 原始 JSON 失败："@ + fault,
        ResponsesErrorView::Failed { message } => "OpenAI Responses 生成失败："@ + message,
        ResponsesErrorView::Incomplete { status, reason } =>
            "OpenAI Responses 生成未完成，状态："@ + quoted_option(status) + "，原因："@ + reason,
        ResponsesErrorView::MissingOutput => "OpenAI Responses 响应缺少 output 数组"@,
        ResponsesErrorView::MissingCallId => "OpenAI Responses function_call 缺少 call_id"@,
        ResponsesErrorView::MissingCallName => "OpenAI Responses function_call 缺少 name"@,
        ResponsesErrorView::MissingCallArguments =>
            "OpenAI Responses function_call 缺少 arguments"@,
        ResponsesErrorView::EmptyReply =>
            "OpenAI Responses 响应既没有文本内容，也没有 function_call（状态：Some(\"completed\")）"@,
        ResponsesErrorView::EmptyDescription => "OpenAI Responses 视觉响应内容为空"@,
        ResponsesErrorView::EmptySearch => "OpenAI Responses 联网搜索响应内容为空"@,
        ResponsesErrorView::NoFinishedSearch =>
            "OpenAI Responses 未返回已完成的联网搜索调用"@,
    }
}

/// A list with one more text, where there is one and it is not empty.
pub open spec fn with_nonempty(list: Seq<Seq<char>>, text: Option<Seq<char>>) -> Seq<Seq<char>> {
    match text {
        Some(t) => if t.len() > 0 {
            list.push(t)
        } else {
            list
        },
        None => list,
    }
}

/// Appends a text, where there is one and it is not empty.
fn push_nonempty(list: &mut Vec<String>, text: Option<String>)
    ensures
        texts(final(list)@) == with_nonempty(texts(old(list)@), option_text(text)),
{
    if let Some(t) = text {
        if !t.is_empty() {
            let ghost before = texts(list@);
            list.push(t);
            assert(texts(list@) =~= before.push(t@));
        }
    }
}

/// The text that a piece of a message item shows.
pub open spec fn shown_text(part: JsonView) -> Option<Seq<char>> {
    let kind = part.text_field("type"@);
    if kind == Some("output_text"@) {
        part.text_field("text"@)
    } else if kind == Some("refusal"@) {
        part.text_field("refusal"@)
    } else {
        None
    }
}

/// A list with the texts of the pieces of a message item.
pub open spec fn with_shown(list: Seq<Seq<char>>, parts: Seq<JsonView>) -> Seq<Seq<char>>
    decreases parts.len(),
{
    if parts.len() == 0 {
        list
    } else {
        with_nonempty(with_shown(list, parts.drop_last()), shown_text(parts.last()))
    }
}

/// A list with the texts of the pieces of a reasoning summary.
pub open spec fn with_summary(list: Seq<Seq<char>>, parts: Seq<JsonView>) -> Seq<Seq<char>>
    decreases parts.len(),
{
    if parts.len() == 0 {
        list
    } else {
        with_nonempty(
            with_summary(list, parts.drop_last()),
            parts.last().text_field("text"@),
        )
    }
}

/// A list with the texts of a message item.
pub open spec fn with_message_text(list: Seq<Seq<char>>, item: JsonView) -> Seq<Seq<char>> {
    match item.array_field("content"@) {
        Some(parts) => with_shown(list, parts),
        None => list,
    }
}

/// A list with the texts of a reasoning item.
pub open spec fn with_reasoning_text(list: Seq<Seq<char>>, item: JsonView) -> Seq<Seq<char>> {
    match item.array_field("summary"@) {
        Some(parts) => with_summary(list, parts),
        None => list,
    }
}

fn collect_message_text(item: &Json, text_parts: &mut Vec<String>)
    ensures
        texts(final(text_parts)@) == with_message_text(texts(old(text_parts)@), item@),
{
    if let Some(parts) = item.array_at("content") {
        let ghost all = items_view(parts@);
        let ghost before = texts(text_parts@);
        let mut i: usize = 0;
        while i < parts.len()
            invariant
                i <= parts@.len(),
                all == items_view(parts@),
                texts(text_parts@) == with_shown(before, all.take(i as int)),
            decreases parts@.len() - i,
        {
            let kind = parts[i].text_at("type");
            let text = if is_text(&kind, "output_text") {
                parts[i].text_at("text")
            } else if is_text(&kind, "refusal") {
                parts[i].text_at("refusal")
            } else {
                None
            };
            assert(option_text(text) == shown_text(all[i as int])) by {
                reveal_strlit("output_text");
                reveal_strlit("refusal");
            }
            push_nonempty(text_parts, text);
            assert(all.take(i + 1).drop_last() =~= all.take(i as int));
            i += 1;
        }
        assert(all.take(i as int) =~= all);
    }
}

fn collect_reasoning_summary(item: &Json, summaries: &mut Vec<String>)
    ensures
        texts(final(summaries)@) == with_reasoning_text(texts(old(summaries)@), item@),
{
    if let Some(parts) = item.array_at("summary") {
        let ghost all = items_view(parts@);
        let ghost before = texts(summaries@);
        let mut i: usize = 0;
        while i < parts.len()
            invariant
                i <= parts@.len(),
                all == items_view(parts@),
                texts(summaries@) == with_summary(before, all.take(i as int)),
            decreases parts@.len() - i,
        {
            let text = parts[i].text_at("text");
            push_nonempty(summaries, text);
            assert(all.take(i + 1).drop_last() =~= all.take(i as int));
            i += 1;
        }
        assert(all.take(i as int) =~= all);
    }
}

/// The tool call in a function call item.
pub open spec fn function_call(item: JsonView) -> Result<ToolCallView, ResponsesErrorView> {
    match item.text_field("call_id"@) {
        None => Err(ResponsesErrorView::MissingCallId),
        Some(id) => match item.text_field("name"@) {
            None => Err(ResponsesErrorView::MissingCallName),
            Some(name) => match item.text_field("arguments"@) {
                None => Err(ResponsesErrorView::MissingCallArguments),
                Some(arguments) => Ok(ToolCallView { id, name, arguments }),
            },
        },
    }
}

/// The tool call in a function call item.
pub fn parse_function_call(item: &Json) -> (r: Result<ToolCall, ResponsesError>)
    ensures
        match r {
            Ok(call) => function_call(item@) == Ok::<_, ResponsesErrorView>(call@),
            Err(e) => function_call(item@) == Err::<ToolCallView, _>(e@),
        },
{
    match item.text_at("call_id") {
        None => Err(ResponsesError::MissingCallId),
        Some(id) => match item.text_at("name") {
            None => Err(ResponsesError::MissingCallName),
            Some(name) => match item.text_at("arguments") {
                None => Err(ResponsesError::MissingCallArguments),
                Some(arguments) => Ok(ToolCall { id, name, arguments }),
            },
        },
    }
}

/// What the output items of a reply hold.
pub struct OutputView {
    pub text_parts: Seq<Seq<char>>,
    pub summaries: Seq<Seq<char>>,
    pub tool_calls: Seq<ToolCallView>,
}

/// What one more output item adds.
pub open spec fn with_item(front: OutputView, item: JsonView) -> Result<
    OutputView,
    ResponsesErrorView,
> {
    let kind = item.text_field("type"@);
    if kind == Some("message"@) {
        Ok(OutputView { text_parts: with_message_text(front.text_parts, item), ..front })
    } else if kind == Some("function_call"@) {
        match function_call(item) {
            Ok(call) => Ok(OutputView { tool_calls: front.tool_calls.push(call), ..front }),
            Err(e) => Err(e),
        }
    } else if kind == Some("reasoning"@) {
        Ok(OutputView { summaries: with_reasoning_text(front.summaries, item), ..front })
    } else {
        Ok(front)
    }
}

/// What output items hold; the first function call that lacks something decides the error.
pub open spec fn output_of(items: Seq<JsonView>) -> Result<OutputView, ResponsesErrorView>
    decreases items.len(),
{
    if items.len() == 0 {
        Ok(
            OutputView {
                text_parts: Seq::empty(),
                summaries: Seq::empty(),
                tool_calls: Seq::empty(),
            },
        )
    } else {
        match output_of(items.drop_last()) {
            Ok(front) => with_item(front, items.last()),
            Err(e) => Err(e),
        }
    }
}

/// An error in the front part is the error of the whole.
proof fn lemma_output_error(items: Seq<JsonView>, n: int)
    requires
        0 <= n <= items.len(),
        output_of(items.take(n)) is Err,
    ensures
        output_of(items) == output_of(items.take(n)),
    decreases items.len() - n,
{
    if n < items.len() {
        assert(items.take(n + 1).drop_last() =~= items.take(n));
        lemma_output_error(items, n + 1);
    } else {
        assert(items.take(n) =~= items);
    }
}

/// What output items hold.
struct Output {
    text_parts: Vec<String>,
    summaries: Vec<String>,
    tool_calls: Vec<ToolCall>,
}

impl Output {
    spec fn model(self) -> OutputView {
        OutputView {
            text_parts: texts(self.text_parts@),
            summaries: texts(self.summaries@),
            tool_calls: calls_view(self.tool_calls@),
        }
    }
}

/// What output items hold.
fn read_output(items: &Vec<Json>) -> (r: Result<Output, ResponsesError>)
    ensures
        match r {
            Ok(o) => output_of(items_view(items@)) == Ok::<_, ResponsesErrorView>(o.model()),
            Err(e) => output_of(items_view(items@)) == Err::<OutputView, _>(e@),
        },
{
    let mut text_parts: Vec<String> = Vec::new();
    let mut summaries: Vec<String> = Vec::new();
    let mut tool_calls: Vec<ToolCall> = Vec::new();
    let ghost all = items_view(items@);
    assert(texts(text_parts@) =~= Seq::empty());
    assert(texts(summaries@) =~= Seq::empty());
    assert(calls_view(tool_calls@) =~= Seq::empty());
    let mut i: usize = 0;
    while i < items.len()
        invariant
            i <= items@.len(),
            all == items_view(items@),
            output_of(all.take(i as int)) == Ok::<_, ResponsesErrorView>(
                OutputView {
                    text_parts: texts(text_parts@),
                    summaries: texts(summaries@),
                    tool_calls: calls_view(tool_calls@),
                },
            ),
        decreases items@.len() - i,
    {
        let item = &items[i];
        proof {
            assert(all.take(i + 1).drop_last() =~= all.take(i as int));
            assert(all.take(i + 1).last() == item@);
            reveal_strlit("message");
            reveal_strlit("function_call");
            reveal_strlit("reasoning");
        }
        let kind = item.text_at("type");
        if is_text(&kind, "message") {
            collect_message_text(item, &mut text_parts);
        } else if is_text(&kind, "function_call") {
            match parse_function_call(item) {
                Ok(call) => {
                    let ghost before = calls_view(tool_calls@);
                    tool_calls.push(call);
                    assert(calls_view(tool_calls@) =~= before.push(call@));
                },
                Err(e) => {
                    proof {
                        lemma_output_error(all, i + 1);
                    }
                    return Err(e);
                },
            }
        } else if is_text(&kind, "reasoning") {
            collect_reasoning_summary(item, &mut summaries);
        }
        i += 1;
    }
    assert(all.take(i as int) =~= all);
    Ok(Output { text_parts, summaries, tool_calls })
}

/// The lines of a text made of `parts`, where there are any.
pub open spec fn joined_lines(parts: Seq<Seq<char>>) -> Option<Seq<char>> {
    if parts.len() == 0 {
        None
    } else {
        Some(join_of(parts, "\n"@))
    }
}

fn join_lines(parts: &Vec<String>) -> (r: Option<String>)
    ensures
        option_text(r) == joined_lines(texts(parts@)),
{
    if parts.len() == 0 {
        None
    } else {
        Some(join(parts, "\n"))
    }
}

/// The token counts of a reply.
pub open spec fn usage_of(raw: JsonView) -> Option<ChatUsage> {
    match raw.field("usage"@) {
        Some(usage) => Some(
            ChatUsage {
                prompt_tokens: usage.unsigned_field("input_tokens"@),
                completion_tokens: usage.unsigned_field("output_tokens"@),
                total_tokens: usage.unsigned_field("total_tokens"@),
            },
        ),
        None => None,
    }
}

/// A finished reply with the given output items and what they hold.
pub open spec fn finished_reply(
    raw: JsonView,
    items: Seq<JsonView>,
    output: OutputView,
) -> Result<ResponseView, ResponsesErrorView> {
    let parts = if output.text_parts.len() == 0 {
        with_nonempty(output.text_parts, raw.text_field("output_text"@))
    } else {
        output.text_parts
    };
    let content = joined_lines(parts);
    if content is None && output.tool_calls.len() == 0 {
        Err(ResponsesErrorView::EmptyReply)
    } else {
        Ok(
            ResponseView {
                content,
                reasoning: ReasoningStateView {
                    display_text: joined_lines(output.summaries),
                    replay: if items.len() == 0 {
                        None
                    } else {
                        Some(
                            ReasoningView::Structured(
                                object2(
                                    "provider"@,
                                    JsonView::Text(RESPONSES_REPLAY_PROVIDER@),
                                    "output_items"@,
                                    JsonView::Array(items),
                                ),
                            ),
                        )
                    },
                },
                tool_calls: output.tool_calls,
                finish_reason: Some(
                    if output.tool_calls.len() == 0 {
                        "stop"@
                    } else {
                        "tool_calls"@
                    },
                ),
                id: raw.text_field("id"@),
                model: raw.text_field("model"@),
                usage: usage_of(raw),
                raw_response: raw,
            },
        )
    }
}

/// What a reply is read as. A reply that is not completed gives nothing but an error.
pub open spec fn reply_of(raw: JsonView) -> Result<ResponseView, ResponsesErrorView> {
    let status = raw.text_field("status"@);
    if status == Some("failed"@) {
        Err(
            ResponsesErrorView::Failed {
                message: match raw.nested_text("error"@, "message"@) {
                    Some(message) => message,
                    None => "未知错误"@,
                },
            },
        )
    } else if status != Some("completed"@) {
        Err(
            ResponsesErrorView::Incomplete {
                status,
                reason: match raw.nested_text("incomplete_details"@, "reason"@) {
                    Some(reason) => reason,
                    None => "未提供原因"@,
                },
            },
        )
    } else {
        match raw.array_field("output"@) {
            None => Err(ResponsesErrorView::MissingOutput),
            Some(items) => match output_of(items) {
                Err(e) => Err(e),
                Ok(output) => finished_reply(raw, items, output),
            },
        }
    }
}

/// What a reply is read as.
pub fn read_responses_reply(raw_response: Json) -> (r: Result<ToolChatResponse, ResponsesError>)
    ensures
        match r {
            Ok(reply) => reply_of(raw_response@) == Ok::<_, ResponsesErrorView>(reply@),
            Err(e) => reply_of(raw_response@) == Err::<ResponseView, _>(e@),
        },
{
    let status = raw_response.text_at("status");
    if is_text(&status, "failed") {
        let message = match raw_response.nested_text_at("error", "message") {
            Some(message) => message,
            None => "未知错误".to_owned(),
        };
        return Err(ResponsesError::Failed { message });
    }
    if !is_text(&status, "completed") {
        let reason = match raw_response.nested_text_at("incomplete_details", "reason") {
            Some(reason) => reason,
            None => "未提供原因".to_owned(),
        };
        return Err(ResponsesError::Incomplete { status, reason });
    }
    let items = match raw_response.array_at("output") {
        Some(items) => items,
        None => {
            return Err(ResponsesError::MissingOutput);
        },
    };
    let mut output = match read_output(items) {
        Ok(output) => output,
        Err(e) => {
            return Err(e);
        },
    };
    let ghost found = output.model();
    if output.text_parts.len() == 0 {
        let text = raw_response.text_at("output_text");
        push_nonempty(&mut output.text_parts, text);
    }
    let content = join_lines(&output.text_parts);
    if content.is_none() && output.tool_calls.len() == 0 {
        return Err(ResponsesError::EmptyReply);
    }
    let finish_reason = if output.tool_calls.len() == 0 {
        "stop".to_owned()
    } else {
        "tool_calls".to_owned()
    };
    let usage = match raw_response.get("usage") {
        Some(usage) => Some(
            ChatUsage {
                prompt_tokens: usage.unsigned_at("input_tokens"),
                completion_tokens: usage.unsigned_at("output_tokens"),
                total_tokens: usage.unsigned_at("total_tokens"),
            },
        ),
        None => None,
    };
    let display_text = join_lines(&output.summaries);
    let replay = if items.len() == 0 {
        None
    } else {
        let mut kept = Items::new();
        let mut i: usize = 0;
        while i < items.len()
            invariant
                i <= items@.len(),
                kept@ == items_view(items@).take(i as int),
            decreases items@.len() - i,
        {
            kept.push(items[i].copy());
            assert(items_view(items@).take(i + 1) =~= items_view(items@).take(i as int).push(
                items@[i as int]@,
            ));
            i += 1;
        }
        assert(items_view(items@).take(i as int) =~= items_view(items@));
        let mut fields = Fields::new();
        fields.put_text("provider", RESPONSES_REPLAY_PROVIDER);
        fields.put("output_items", kept.done());
        Some(ReasoningPayload::Structured(fields.done()))
    };
    let id = raw_response.text_at("id");
    let model = raw_response.text_at("model");
    Ok(
        ToolChatResponse {
            content,
            reasoning: ReasoningState { display_text, replay },
            tool_calls: output.tool_calls,
            finish_reason: Some(finish_reason),
            id,
            model,
            usage,
            raw_response,
        },
    )
}

/// What the text of a reply is read as.
pub open spec fn reply_text_of(parsed: Result<JsonView, Seq<char>>) -> Result<
    ResponseView,
    ResponsesErrorView,
> {
    match parsed {
        Ok(raw) => reply_of(raw),
        Err(fault) => Err(ResponsesErrorView::InvalidJson { fault }),
    }
}

/// What the text of a reply is read as.
pub fn parse_openai_responses_response(response_text: &str) -> (r: Result<
    ToolChatResponse,
    ResponsesError,
>)
    ensures
        match r {
            Ok(reply) => reply_text_of(json_read(response_text@)) == Ok::<
                _,
                ResponsesErrorView,
            >(reply@),
            Err(e) => reply_text_of(json_read(response_text@)) == Err::<ResponseView, _>(e@),
        },
{
    match read_json(response_text) {
        Ok(raw) => read_responses_reply(raw),
        Err(fault) => Err(ResponsesError::InvalidJson { fault }),
    }
}

/// The text of a reply, where it has more than white space.
pub open spec fn answer_of(content: Option<Seq<char>>) -> Option<Seq<char>> {
    match content {
        Some(text) => if is_blank(text) {
            None
        } else {
            Some(text)
        },
        None => None,
    }
}

fn answer(response: &ToolChatResponse) -> (r: Option<String>)
    ensures
        option_text(r) == answer_of(response@.content),
{
    match &response.content {
        Some(text) => {
            if blank(text) {
                None
            } else {
                Some(text.clone())
            }
        },
        None => None,
    }
}

/// The description of an image in a reply, where it has more than white space.
pub fn answer_text(response: &ToolChatResponse) -> (r: Result<String, ResponsesError>)
    ensures
        match answer_of(response@.content) {
            Some(text) => r is Ok && r->Ok_0@ == text,
            None => r == Err::<String, ResponsesError>(ResponsesError::EmptyDescription),
        },
{
    match answer(response) {
        Some(text) => Ok(text),
        None => Err(ResponsesError::EmptyDescription),
    }
}

/// Whether an output item is a web search that was completed.
pub open spec fn finished_search(item: JsonView) -> bool {
    item.text_field("type"@) == Some("web_search_call"@) && item.text_field("status"@) == Some(
        "completed"@,
    )
}

/// Whether a reply holds a web search that was completed.
pub open spec fn searched(raw: JsonView) -> bool {
    match raw.array_field("output"@) {
        Some(items) => exists|i: int| 0 <= i < items.len() && finished_search(#[trigger] items[i]),
        None => false,
    }
}

/// The answer to a search: only a reply with a completed search counts.
pub open spec fn search_answer_of(response: ResponseView) -> Result<
    Seq<char>,
    ResponsesErrorView,
> {
    if searched(response.raw_response) {
        match answer_of(response.content) {
            Some(text) => Ok(text),
            None => Err(ResponsesErrorView::EmptySearch),
        }
    } else {
        Err(ResponsesErrorView::NoFinishedSearch)
    }
}

/// The answer to a search: only a reply with a completed search counts.
pub fn search_answer(response: &ToolChatResponse) -> (r: Result<String, ResponsesError>)
    ensures
        match r {
            Ok(text) => search_answer_of(response@) == Ok::<_, ResponsesErrorView>(text@),
            Err(e) => search_answer_of(response@) == Err::<Seq<char>, _>(e@),
        },
{
    let mut found = false;
    if let Some(items) = response.raw_response.array_at("output") {
        let ghost all = items_view(items@);
        let mut i: usize = 0;
        while i < items.len()
            invariant
                i <= items@.len(),
                all == items_view(items@),
                found == exists|j: int| 0 <= j < i && finished_search(#[trigger] all[j]),
            decreases items@.len() - i,
        {
            let kind = items[i].text_at("type");
            let status = items[i].text_at("status");
            let hit = is_text(&kind, "web_search_call") && is_text(&status, "completed");
            assert(hit == finished_search(all[i as int]));
            found = found || hit;
            i += 1;
        }
        proof {
            let raw = response.raw_response@;
            assert(raw.array_field("output"@) == Some(all));
            if searched(raw) {
                let j = choose|j: int| 0 <= j < all.len() && finished_search(#[trigger] all[j]);
                assert(finished_search(all[j]));
            }
        }
    }
    if found {
        match answer(response) {
            Some(text) => Ok(text),
            None => Err(ResponsesError::EmptySearch),
        }
    } else {
        Err(ResponsesError::NoFinishedSearch)
    }
}

/// Nothing of a reply that is not completed reaches the caller.
pub proof fn law_only_completed_replies(raw: JsonView)
    ensures
        reply_of(raw) is Ok ==> raw.text_field("status"@) == Some("completed"@),
{
}

/// An accepted reply is repeated in the next request by exactly the output items it came with.
pub proof fn law_reply_is_repeated_exactly(raw: JsonView, reply: ResponseView, items: Seq<JsonView>)
    requires
        reply_of(raw) == Ok::<_, ResponsesErrorView>(reply),
        raw.array_field("output"@) == Some(items),
        items.len() > 0,
    ensures
        message_items(reply.as_message()) == items,
{
    reveal_strlit("provider");
    reveal_strlit("output_items");
    let payload = object2(
        "provider"@,
        JsonView::Text(RESPONSES_REPLAY_PROVIDER@),
        "output_items"@,
        JsonView::Array(items),
    );
    assert(reply.reasoning.replay == Some(ReasoningView::Structured(payload)));
    let fields = payload->Object_0;
    assert("provider"@.len() != "output_items"@.len());
    assert(fields[0].0 == "provider"@);
    assert(fields.drop_first()[0] == ("output_items"@, JsonView::Array(items)));
    assert(payload.field("output_items"@) == lookup(fields.drop_first(), "output_items"@));
}

/// Whether an input item holds a piece of a user message.
pub open spec fn holds_part(item: JsonView, part: PartView) -> bool {
    match part {
        PartView::Text(text) => item.text_field("type"@) == Some("input_text"@) && item.text_field(
            "text"@,
        ) == Some(text),
        PartView::Image(url) => item.text_field("type"@) == Some("input_image"@)
            && item.text_field("image_url"@) == Some(url),
    }
}

/// Whether input items hold tool calls, one for each, with its id, its name and its arguments.
pub open spec fn hold_calls(items: Seq<JsonView>, calls: Seq<ToolCallView>) -> bool {
    items.len() == calls.len() && forall|k: int|
        0 <= k < calls.len() ==> {
            &&& items[k].text_field("type"@) == Some("function_call"@)
            &&& items[k].text_field("call_id"@) == Some((#[trigger] calls[k]).id)
            &&& items[k].text_field("name"@) == Some(calls[k].name)
            &&& items[k].text_field("arguments"@) == Some(calls[k].arguments)
        }
}

/// Whether input items hold a message: its role and its own content, or the call that it answers
/// with the result. A message of the assistant is held by the items that were kept of it, and where
/// none were kept by what it says, where it says anything, and its calls.
pub open spec fn hold_message(items: Seq<JsonView>, message: MessageView) -> bool {
    match message {
        MessageView::System { content } => {
            &&& items.len() == 1
            &&& items[0].text_field("role"@) == Some("system"@)
            &&& (items[0].array_field("content"@) matches Some(parts) && parts.len() == 1
                && holds_part(parts[0], PartView::Text(content)))
        },
        MessageView::User { content } => {
            &&& items.len() == 1
            &&& items[0].text_field("role"@) == Some("user"@)
            &&& (items[0].array_field("content"@) matches Some(parts) && parts.len()
                == content.len() && forall|k: int|
                0 <= k < content.len() ==> holds_part(parts[k], #[trigger] content[k]))
        },
        MessageView::Tool { tool_call_id, content } => {
            &&& items.len() == 1
            &&& items[0].text_field("type"@) == Some("function_call_output"@)
            &&& items[0].text_field("call_id"@) == Some(tool_call_id)
            &&& items[0].text_field("output"@) == Some(content)
        },
        MessageView::Assistant { content, reasoning, tool_calls } => {
            let kept = match reasoning {
                Some(ReasoningView::Structured(payload)) => if payload.text_field("provider"@)
                    == Some(RESPONSES_REPLAY_PROVIDER@) {
                    payload.array_field("output_items"@)
                } else {
                    None
                },
                _ => None,
            };
            match kept {
                Some(whole) => items == whole,
                None => match content {
                    Some(text) => if text.len() > 0 {
                        &&& items.len() > 0
                        &&& items[0].text_field("role"@) == Some("assistant"@)
                        &&& items[0].text_field("content"@) == Some(text)
                        &&& hold_calls(items.skip(1), tool_calls)
                    } else {
                        hold_calls(items, tool_calls)
                    },
                    None => hold_calls(items, tool_calls),
                },
            }
        },
    }
}

/// Whether input items hold messages one behind the other: message `i` is held by the items from
/// `ends[i]` up to `ends[i + 1]`.
pub open spec fn hold_messages(
    items: Seq<JsonView>,
    messages: Seq<MessageView>,
    ends: Seq<int>,
) -> bool {
    &&& ends.len() == messages.len() + 1
    &&& ends[0] == 0
    &&& ends.last() == items.len()
    &&& forall|i: int|
        0 <= i < messages.len() ==> held_between(
            items,
            #[trigger] messages[i],
            ends[i],
            ends[i + 1],
        )
}

/// Whether the input items between two positions hold a message.
pub open spec fn held_between(items: Seq<JsonView>, message: MessageView, from: int, to: int) -> bool {
    0 <= from <= to <= items.len() && hold_message(items.subrange(from, to), message)
}

proof fn lemma_input_names()
    ensures
        "type"@ != "text"@,
        "type"@ != "image_url"@,
        "type"@ != "detail"@,
        "image_url"@ != "detail"@,
        "type"@ != "call_id"@,
        "type"@ != "name"@,
        "type"@ != "arguments"@,
        "type"@ != "output"@,
        "call_id"@ != "name"@,
        "call_id"@ != "arguments"@,
        "call_id"@ != "output"@,
        "name"@ != "arguments"@,
        "role"@ != "content"@,
{
    reveal_strlit("type");
    reveal_strlit("text");
    reveal_strlit("image_url");
    reveal_strlit("detail");
    reveal_strlit("call_id");
    reveal_strlit("name");
    reveal_strlit("arguments");
    reveal_strlit("output");
    reveal_strlit("role");
    reveal_strlit("content");
    assert("type"@[0] == 't' && "text"@[1] == 'e' && "type"@[1] == 'y' && "name"@[0] == 'n');
    assert("image_url"@.len() == 9 && "detail"@.len() == 6 && "call_id"@.len() == 7);
    assert("arguments"@.len() == 9 && "output"@.len() == 6 && "type"@.len() == 4);
    assert("role"@.len() == 4 && "content"@.len() == 7);
}

proof fn lemma_input_part(part: PartView)
    ensures
        holds_part(input_part(part), part),
{
    lemma_input_names();
    match part {
        PartView::Text(text) => {
            lemma_object2("type"@, JsonView::Text("input_text"@), "text"@, JsonView::Text(text));
        },
        PartView::Image(url) => {
            lemma_object3(
                "type"@,
                JsonView::Text("input_image"@),
                "image_url"@,
                JsonView::Text(url),
                "detail"@,
                JsonView::Text("high"@),
            );
        },
    }
}

proof fn lemma_call_items(calls: Seq<ToolCallView>)
    ensures
        hold_calls(call_items(calls), calls),
{
    lemma_input_names();
    let items = call_items(calls);
    assert forall|k: int| 0 <= k < calls.len() implies {
        &&& items[k].text_field("type"@) == Some("function_call"@)
        &&& items[k].text_field("call_id"@) == Some((#[trigger] calls[k]).id)
        &&& items[k].text_field("name"@) == Some(calls[k].name)
        &&& items[k].text_field("arguments"@) == Some(calls[k].arguments)
    } by {
        let fields = call_item(calls[k])->Object_0;
        lemma_field_at(fields, "type"@, 0);
        lemma_field_at(fields, "call_id"@, 1);
        lemma_field_at(fields, "name"@, 2);
        lemma_field_at(fields, "arguments"@, 3);
    }
}

proof fn lemma_message_items(message: MessageView)
    ensures
        hold_message(message_items(message), message),
{
    lemma_input_names();
    match message {
        MessageView::System { content } => {
            let part = object2(
                "type"@,
                JsonView::Text("input_text"@),
                "text"@,
                JsonView::Text(content),
            );
            lemma_input_part(PartView::Text(content));
            lemma_object2(
                "role"@,
                JsonView::Text("system"@),
                "content"@,
                JsonView::Array(seq![part]),
            );
        },
        MessageView::User { content } => {
            assert forall|k: int| 0 <= k < content.len() implies holds_part(
                input_parts(content)[k],
                #[trigger] content[k],
            ) by {
                lemma_input_part(content[k]);
            }
            lemma_object2(
                "role"@,
                JsonView::Text("user"@),
                "content"@,
                JsonView::Array(input_parts(content)),
            );
        },
        MessageView::Tool { tool_call_id, content } => {
            lemma_object3(
                "type"@,
                JsonView::Text("function_call_output"@),
                "call_id"@,
                JsonView::Text(tool_call_id),
                "output"@,
                JsonView::Text(content),
            );
        },
        MessageView::Assistant { content, reasoning, tool_calls } => {
            lemma_call_items(tool_calls);
            let items = message_items(message);
            if let Some(text) = content {
                lemma_object2(
                    "role"@,
                    JsonView::Text("assistant"@),
                    "content"@,
                    JsonView::Text(text),
                );
                if text.len() > 0 {
                    let said = seq![
                        object2(
                            "role"@,
                            JsonView::Text("assistant"@),
                            "content"@,
                            JsonView::Text(text),
                        ),
                    ];
                    assert((said + call_items(tool_calls)).skip(1) =~= call_items(tool_calls));
                } else {
                    assert(Seq::<JsonView>::empty() + call_items(tool_calls) =~= call_items(
                        tool_calls,
                    ));
                }
            } else {
                assert(Seq::<JsonView>::empty() + call_items(tool_calls) =~= call_items(
                    tool_calls,
                ));
            }
        },
    }
}

proof fn lemma_input_items(messages: Seq<MessageView>) -> (ends: Seq<int>)
    ensures
        hold_messages(input_items(messages), messages, ends),
    decreases messages.len(),
{
    if messages.len() == 0 {
        seq![0int]
    } else {
        let front = messages.drop_last();
        let n = messages.len() - 1;
        let ends = lemma_input_items(front);
        let before = input_items(front);
        let added = message_items(messages.last());
        let items = input_items(messages);
        lemma_message_items(messages.last());
        let all = ends.push(items.len() as int);
        assert forall|i: int| 0 <= i < messages.len() implies held_between(
            items,
            #[trigger] messages[i],
            all[i],
            all[i + 1],
        ) by {
            if i < n {
                assert(front[i] == messages[i]);
                assert(held_between(before, front[i], ends[i], ends[i + 1]));
                assert(items.subrange(ends[i], ends[i + 1]) =~= before.subrange(
                    ends[i],
                    ends[i + 1],
                ));
            } else {
                assert(all[i] == ends.last());
                assert(items.subrange(before.len() as int, items.len() as int) =~= added);
            }
        }
        assert(all[0] == ends[0]);
        all
    }
}

/// A request holds the whole conversation: for each message, in order, its role and its own content,
/// the calls that it makes or the call that it answers. It names the model as it is given, and says
/// that nothing is to be stored.
pub proof fn law_request_holds_the_conversation(
    model: Seq<char>,
    max_tokens: Option<i32>,
    effort: Seq<char>,
    messages: Seq<MessageView>,
    tools: Option<JsonView>,
    tool_choice: Option<JsonView>,
    session_id: Option<Seq<char>>,
)
    ensures
        ({
            let request = request_with(
                model,
                max_tokens,
                effort,
                messages,
                tools,
                tool_choice,
                session_id,
            );
            &&& request.text_field("model"@) == Some(model)
            &&& request.field("store"@) == Some(JsonView::Bool(false))
            &&& (request.array_field("input"@) matches Some(items) && exists|ends: Seq<int>|
                hold_messages(items, messages, ends))
            &&& request.field("tools"@) == tools
            &&& request.field("tool_choice"@) == tool_choice
            &&& request.text_field("prompt_cache_key"@) == session_id
            &&& match max_tokens {
                Some(n) => n >= 0 ==> request.field("max_output_tokens"@) == Some(
                    JsonView::Unsigned(n as u64),
                ),
                None => request.field("max_output_tokens"@) is None,
            }
            &&& if effort == "auto"@ {
                request.field("reasoning"@) is None
            } else {
                request.nested_text("reasoning"@, "effort"@) == Some(effort)
            }
        }),
{
    reveal_strlit("model");
    reveal_strlit("effort");
    reveal_strlit("summary");
    assert("effort"@.len() == 6 && "summary"@.len() == 7);
    lemma_object2("effort"@, JsonView::Text(effort), "summary"@, JsonView::Text("auto"@));
    reveal_strlit("input");
    reveal_strlit("store");
    reveal_strlit("include");
    reveal_strlit("max_output_tokens");
    reveal_strlit("reasoning");
    reveal_strlit("tools");
    reveal_strlit("tool_choice");
    reveal_strlit("prompt_cache_key");
    assert("model"@[0] == 'm' && "input"@[0] == 'i' && "store"@[0] == 's' && "tools"@[0] == 't');
    assert("model"@.len() == 5 && "input"@.len() == 5 && "store"@.len() == 5);
    assert("include"@.len() == 7 && "max_output_tokens"@.len() == 17 && "reasoning"@.len() == 9);
    assert("tools"@.len() == 5 && "tool_choice"@.len() == 11 && "prompt_cache_key"@.len() == 16);
    let first = Seq::empty().push(("model"@, JsonView::Text(model))).push(
        ("input"@, JsonView::Array(input_items(messages))),
    ).push(("store"@, JsonView::Bool(false))).push(
        ("include"@, JsonView::Array(seq![JsonView::Text("reasoning.encrypted_content"@)])),
    );
    let limit = match max_tokens {
        Some(n) => Some(int_view(n as int)),
        None => None,
    };
    let key = match session_id {
        Some(id) => Some(JsonView::Text(id)),
        None => None,
    };
    let second = with_field(first, "max_output_tokens"@, limit);
    let third = with_field(second, "reasoning"@, reasoning_field(effort));
    let fourth = with_field(third, "tools"@, tools);
    let fifth = with_field(fourth, "tool_choice"@, tool_choice);
    let names = seq![
        "model"@,
        "input"@,
        "store"@,
        "max_output_tokens"@,
        "reasoning"@,
        "tools"@,
        "tool_choice"@,
        "prompt_cache_key"@,
    ];
    lemma_field_at(first, "model"@, 0);
    lemma_field_at(first, "input"@, 1);
    lemma_field_at(first, "store"@, 2);
    lemma_no_field(first, "max_output_tokens"@);
    lemma_no_field(first, "reasoning"@);
    lemma_no_field(first, "tools"@);
    lemma_no_field(first, "tool_choice"@);
    lemma_no_field(first, "prompt_cache_key"@);
    assert forall|i: int| 0 <= i < names.len() implies request_with(
        model,
        max_tokens,
        effort,
        messages,
        tools,
        tool_choice,
        session_id,
    ).field(#[trigger] names[i]) == (match JsonView::Object(first).field(names[i]) {
        Some(v) => Some(v),
        None => if names[i] == "max_output_tokens"@ {
            limit
        } else if names[i] == "reasoning"@ {
            reasoning_field(effort)
        } else if names[i] == "tools"@ {
            tools
        } else if names[i] == "tool_choice"@ {
            tool_choice
        } else if names[i] == "prompt_cache_key"@ {
            key
        } else {
            None
        },
    }) by {
        lemma_more_fields(first, "max_output_tokens"@, limit, names[i]);
        lemma_more_fields(second, "reasoning"@, reasoning_field(effort), names[i]);
        lemma_more_fields(third, "tools"@, tools, names[i]);
        lemma_more_fields(fourth, "tool_choice"@, tool_choice, names[i]);
        lemma_more_fields(fifth, "prompt_cache_key"@, key, names[i]);
    }
    assert(names[0] == "model"@ && names[1] == "input"@ && names[2] == "store"@);
    assert(names[3] == "max_output_tokens"@ && names[4] == "reasoning"@ && names[5] == "tools"@);
    assert(names[6] == "tool_choice"@ && names[7] == "prompt_cache_key"@);
    let ends = lemma_input_items(messages);
    let request = request_with(
        model,
        max_tokens,
        effort,
        messages,
        tools,
        tool_choice,
        session_id,
    );
    assert(request.text_field("model"@) == Some(model));
    assert(request.field("store"@) == Some(JsonView::Bool(false)));
    assert(request.array_field("input"@) == Some(input_items(messages)));
    assert(request.field("tools"@) == tools);
    assert(request.field("tool_choice"@) == tool_choice);
    assert(request.text_field("prompt_cache_key"@) == session_id);
    assert(request.field("max_output_tokens"@) == limit);
    assert(request.field("reasoning"@) == reasoning_field(effort));
    assert(hold_messages(request.array_field("input"@).unwrap(), messages, ends));
}

/// A request offers every tool with its name, its description and its parameters, in order.
pub proof fn law_request_offers_the_tools(tools: Seq<ToolDefinitionView>)
    ensures
        tools.len() == 0 ==> function_tools(tools) is None,
        tools.len() > 0 ==> (function_tools(tools) matches Some(JsonView::Array(items))
            && items.len() == tools.len() && forall|k: int|
            0 <= k < tools.len() ==> {
                &&& items[k].text_field("type"@) == Some("function"@)
                &&& items[k].text_field("name"@) == Some((#[trigger] tools[k]).name)
                &&& items[k].text_field("description"@) == Some(tools[k].description)
                &&& items[k].field("parameters"@) == Some(tools[k].parameters)
            }),
{
    if tools.len() > 0 {
        let items = function_tools(tools).unwrap()->Array_0;
        assert forall|k: int| 0 <= k < tools.len() implies {
            &&& items[k].text_field("type"@) == Some("function"@)
            &&& items[k].text_field("name"@) == Some((#[trigger] tools[k]).name)
            &&& items[k].text_field("description"@) == Some(tools[k].description)
            &&& items[k].field("parameters"@) == Some(tools[k].parameters)
        } by {
            reveal_strlit("type");
            reveal_strlit("name");
            reveal_strlit("description");
            reveal_strlit("parameters");
            assert("type"@[0] == 't' && "name"@[0] == 'n');
            assert("type"@.len() == 4 && "description"@.len() == 11 && "parameters"@.len() == 10);
            let fields = function_tool(tools[k])->Object_0;
            lemma_field_at(fields, "type"@, 0);
            lemma_field_at(fields, "name"@, 1);
            lemma_field_at(fields, "description"@, 2);
            lemma_field_at(fields, "parameters"@, 3);
        }
    }
}

/// Whether calls are those that output items make: the item at `at[k]` makes call `k`, and no other
/// item makes any.
pub open spec fn calls_are_made(
    calls: Seq<ToolCallView>,
    items: Seq<JsonView>,
    at: Seq<int>,
) -> bool {
    &&& at.len() == calls.len()
    &&& forall|k: int|
        0 <= k < calls.len() ==> 0 <= #[trigger] at[k] < items.len() && items[at[k]].text_field(
            "type"@,
        ) == Some("function_call"@) && items[at[k]].text_field("call_id"@) == Some(calls[k].id)
            && items[at[k]].text_field("name"@) == Some(calls[k].name) && items[at[k]].text_field(
            "arguments"@,
        ) == Some(calls[k].arguments)
    &&& forall|j: int, k: int| 0 <= j < k < at.len() ==> #[trigger] at[j] < #[trigger] at[k]
    &&& forall|i: int|
        0 <= i < items.len() && (#[trigger] items[i]).text_field("type"@) == Some(
            "function_call"@,
        ) ==> at.contains(i)
}

proof fn lemma_calls_made(items: Seq<JsonView>, output: OutputView) -> (at: Seq<int>)
    requires
        output_of(items) == Ok::<_, ResponsesErrorView>(output),
    ensures
        calls_are_made(output.tool_calls, items, at),
    decreases items.len(),
{
    if items.len() == 0 {
        Seq::empty()
    } else {
        let front = items.drop_last();
        let n = items.len() - 1;
        let before = output_of(front)->Ok_0;
        let at = lemma_calls_made(front, before);
        reveal_strlit("message");
        reveal_strlit("function_call");
        reveal_strlit("reasoning");
        assert("message"@.len() == 7 && "function_call"@.len() == 13 && "reasoning"@.len() == 9);
        let made = items[n].text_field("type"@) == Some("function_call"@);
        let all = if made {
            at.push(n)
        } else {
            at
        };
        assert forall|k: int| 0 <= k < output.tool_calls.len() implies 0 <= #[trigger] all[k]
            < items.len() && items[all[k]].text_field("type"@) == Some("function_call"@)
            && items[all[k]].text_field("call_id"@) == Some(output.tool_calls[k].id)
            && items[all[k]].text_field("name"@) == Some(output.tool_calls[k].name)
            && items[all[k]].text_field("arguments"@) == Some(output.tool_calls[k].arguments) by {
            if k < at.len() {
                assert(0 <= at[k] < front.len());
                assert(front[at[k]] == items[at[k]]);
            }
        }
        assert forall|j: int, k: int| 0 <= j < k < all.len() implies #[trigger] all[j]
            < #[trigger] all[k] by {
            assert(at[j] < front.len());
            if k < at.len() {
                assert(at[j] < at[k]);
            }
        }
        assert forall|i: int|
            0 <= i < items.len() && (#[trigger] items[i]).text_field("type"@) == Some(
                "function_call"@,
            ) implies all.contains(i) by {
            if i < n {
                assert(front[i] == items[i]);
                let k = choose|k: int| 0 <= k < at.len() && at[k] == i;
                assert(all[k] == i);
            } else {
                assert(all[at.len() as int] == i);
            }
        }
        all
    }
}

proof fn lemma_shown_kept(list: Seq<Seq<char>>, parts: Seq<JsonView>, k: int)
    requires
        0 <= k < list.len(),
    ensures
        with_shown(list, parts).len() >= list.len(),
        with_shown(list, parts)[k] == list[k],
    decreases parts.len(),
{
    if parts.len() > 0 {
        lemma_shown_kept(list, parts.drop_last(), k);
    }
}

proof fn lemma_shown_found(list: Seq<Seq<char>>, parts: Seq<JsonView>, p: int)
    requires
        0 <= p < parts.len(),
        parts[p].text_field("type"@) == Some("output_text"@),
        parts[p].text_field("text"@) is Some,
        parts[p].text_field("text"@).unwrap().len() > 0,
    ensures
        with_shown(list, parts).contains(parts[p].text_field("text"@).unwrap()),
    decreases parts.len(),
{
    let front = with_shown(list, parts.drop_last());
    let text = parts[p].text_field("text"@).unwrap();
    let all = with_shown(list, parts);
    if p < parts.len() - 1 {
        assert(parts.drop_last()[p] == parts[p]);
        lemma_shown_found(list, parts.drop_last(), p);
        let k = choose|k: int| 0 <= k < front.len() && front[k] == text;
        assert(all[k] == text);
    } else {
        assert(all == front.push(text));
        assert(all[front.len() as int] == text);
    }
}

proof fn lemma_text_found(items: Seq<JsonView>, output: OutputView, i: int, p: int)
    requires
        output_of(items) == Ok::<_, ResponsesErrorView>(output),
        0 <= i < items.len(),
        items[i].text_field("type"@) == Some("message"@),
        items[i].array_field("content"@) is Some,
        0 <= p < items[i].array_field("content"@).unwrap().len(),
        ({
            let part = items[i].array_field("content"@).unwrap()[p];
            part.text_field("type"@) == Some("output_text"@) && part.text_field("text"@) is Some
                && part.text_field("text"@).unwrap().len() > 0
        }),
    ensures
        output.text_parts.contains(
            items[i].array_field("content"@).unwrap()[p].text_field("text"@).unwrap(),
        ),
    decreases items.len(),
{
    let front = items.drop_last();
    let before = output_of(front)->Ok_0;
    let text = items[i].array_field("content"@).unwrap()[p].text_field("text"@).unwrap();
    if i < items.len() - 1 {
        assert(front[i] == items[i]);
        lemma_text_found(front, before, i, p);
        let k = choose|k: int| 0 <= k < before.text_parts.len() && before.text_parts[k] == text;
        if items.last().text_field("type"@) == Some("message"@) {
            if let Some(parts) = items.last().array_field("content"@) {
                lemma_shown_kept(before.text_parts, parts, k);
            }
        }
        assert(output.text_parts[k] == text);
    } else {
        lemma_shown_found(
            before.text_parts,
            items[i].array_field("content"@).unwrap(),
            p,
        );
    }
}

/// What is read of an accepted reply is what it says: exactly the calls that its items make, in
/// order, with their ids, names and arguments, and every text of its messages. The items go back
/// with the next request as they came.
pub proof fn law_answer_is_read_from_the_reply(raw: JsonView, response: ResponseView)
    requires
        reply_of(raw) == Ok::<_, ResponsesErrorView>(response),
    ensures
        response.raw_response == raw,
        response.id == raw.text_field("id"@),
        response.model == raw.text_field("model"@),
        raw.array_field("output"@) matches Some(items) && {
            &&& exists|at: Seq<int>| calls_are_made(response.tool_calls, items, at)
            &&& forall|i: int, p: int|
                #![trigger items[i].array_field("content"@).unwrap()[p]]
                0 <= i < items.len() && items[i].text_field("type"@) == Some("message"@) && (
                items[i].array_field("content"@) matches Some(parts) && 0 <= p < parts.len()
                    && parts[p].text_field("type"@) == Some("output_text"@) && (
                parts[p].text_field("text"@) matches Some(text) && text.len() > 0)) ==> (
                response.content matches Some(said) && has_text(
                    said,
                    items[i].array_field("content"@).unwrap()[p].text_field("text"@).unwrap(),
                ))
            &&& items.len() > 0 ==> hold_message(items, response.as_message())
        },
{
    let items = raw.array_field("output"@).unwrap();
    let output = output_of(items)->Ok_0;
    let at = lemma_calls_made(items, output);
    assert(calls_are_made(response.tool_calls, items, at));
    assert forall|i: int, p: int|
        #![trigger items[i].array_field("content"@).unwrap()[p]]
        0 <= i < items.len() && items[i].text_field("type"@) == Some("message"@) && (
        items[i].array_field("content"@) matches Some(parts) && 0 <= p < parts.len()
            && parts[p].text_field("type"@) == Some("output_text"@) && (
        parts[p].text_field("text"@) matches Some(text) && text.len() > 0)) implies (
    response.content matches Some(said) && has_text(
        said,
        items[i].array_field("content"@).unwrap()[p].text_field("text"@).unwrap(),
    )) by {
        lemma_text_found(items, output, i, p);
        let text = items[i].array_field("content"@).unwrap()[p].text_field("text"@).unwrap();
        let k = choose|k: int| 0 <= k < output.text_parts.len() && output.text_parts[k] == text;
        lemma_joined(output.text_parts, "\n"@, k);
    }
    if items.len() > 0 {
        reveal_strlit("provider");
        reveal_strlit("output_items");
        assert("provider"@.len() == 8 && "output_items"@.len() == 12);
        lemma_object2(
            "provider"@,
            JsonView::Text(RESPONSES_REPLAY_PROVIDER@),
            "output_items"@,
            JsonView::Array(items),
        );
    }
}

} // verus!
