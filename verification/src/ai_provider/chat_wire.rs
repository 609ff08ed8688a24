//! The parts that chat completion interfaces share: tools and tool calls in a request, and the
//! shape of a reply.

use vstd::prelude::*;

use crate::ai_provider::{ChatUsage, MessageView, PartView};
use crate::json::{
    items_view, lemma_field_at, lemma_no_field, lemma_position, named, object2, object3,
    option_json, option_text, position_of, with_field, with_names, Fields, Items, Json, JsonView,
};
use crate::text::same_text;
use crate::tools::{
    calls_view, definitions_view, ToolCall, ToolCallView, ToolDefinition, ToolDefinitionView,
};

verus! {

/// A tool as a request names it.
pub open spec fn wire_tool(tool: ToolDefinitionView) -> JsonView {
    object2(
        "type"@,
        JsonView::Text("function"@),
        "function"@,
        object3(
            "name"@,
            JsonView::Text(tool.name),
            "description"@,
            JsonView::Text(tool.description),
            "parameters"@,
            tool.parameters,
        ),
    )
}

/// The tools of a request, where there are any.
pub open spec fn wire_tools(tools: Seq<ToolDefinitionView>) -> Option<JsonView> {
    if tools.len() == 0 {
        None
    } else {
        Some(JsonView::Array(Seq::new(tools.len(), |i: int| wire_tool(tools[i]))))
    }
}

/// The tool choice of a request: left to the model where there are tools.
pub open spec fn wire_choice(tools: Seq<ToolDefinitionView>) -> Option<JsonView> {
    if tools.len() == 0 {
        None
    } else {
        Some(JsonView::Text("auto"@))
    }
}

/// The tools of a request, where there are any.
pub fn tools_to_wire(tools: &Vec<ToolDefinition>) -> (r: Option<Json>)
    ensures
        option_json(r) == wire_tools(definitions_view(tools@)),
{
    if tools.len() == 0 {
        return None;
    }
    let ghost listed = Seq::new(tools@.len(), |i: int| wire_tool(definitions_view(tools@)[i]));
    let mut items = Items::new();
    let mut i: usize = 0;
    while i < tools.len()
        invariant
            i <= tools@.len(),
            listed == Seq::new(tools@.len(), |i: int| wire_tool(definitions_view(tools@)[i])),
            items@ == listed.take(i as int),
        decreases tools@.len() - i,
    {
        let mut function = Fields::new();
        function.put_text("name", tools[i].name);
        function.put_text("description", tools[i].description);
        function.put("parameters", tools[i].parameters.copy());
        let mut fields = Fields::new();
        fields.put_text("type", "function");
        fields.put("function", function.done());
        items.push(fields.done());
        assert(listed.take(i + 1) =~= listed.take(i as int).push(listed[i as int]));
        i += 1;
    }
    assert(listed.take(i as int) =~= listed);
    assert(listed =~= Seq::new(
        definitions_view(tools@).len(),
        |i: int| wire_tool(definitions_view(tools@)[i]),
    ));
    Some(items.done())
}

/// The tool choice of a request: left to the model where there are tools.
pub fn choice_to_wire(tools: &Vec<ToolDefinition>) -> (r: Option<Json>)
    ensures
        option_json(r) == wire_choice(definitions_view(tools@)),
{
    if tools.len() == 0 {
        None
    } else {
        Some(Json::text("auto"))
    }
}

/// A tool call as a request repeats it.
pub open spec fn wire_call(call: ToolCallView) -> JsonView {
    object3(
        "id"@,
        JsonView::Text(call.id),
        "type"@,
        JsonView::Text("function"@),
        "function"@,
        object2(
            "name"@,
            JsonView::Text(call.name),
            "arguments"@,
            JsonView::Text(call.arguments),
        ),
    )
}

/// The tool calls that a request repeats, where there are any.
pub open spec fn wire_calls(calls: Seq<ToolCallView>) -> Option<JsonView> {
    if calls.len() == 0 {
        None
    } else {
        Some(JsonView::Array(Seq::new(calls.len(), |i: int| wire_call(calls[i]))))
    }
}

/// The tool calls that a request repeats, where there are any.
pub fn calls_to_wire(calls: &Vec<ToolCall>) -> (r: Option<Json>)
    ensures
        option_json(r) == wire_calls(calls_view(calls@)),
{
    if calls.len() == 0 {
        return None;
    }
    let ghost listed = Seq::new(calls@.len(), |i: int| wire_call(calls_view(calls@)[i]));
    let mut items = Items::new();
    let mut i: usize = 0;
    while i < calls.len()
        invariant
            i <= calls@.len(),
            listed == Seq::new(calls@.len(), |i: int| wire_call(calls_view(calls@)[i])),
            items@ == listed.take(i as int),
        decreases calls@.len() - i,
    {
        let mut function = Fields::new();
        function.put_text("name", &calls[i].name);
        function.put_text("arguments", &calls[i].arguments);
        let mut fields = Fields::new();
        fields.put_text("id", &calls[i].id);
        fields.put_text("type", "function");
        fields.put("function", function.done());
        items.push(fields.done());
        assert(listed.take(i + 1) =~= listed.take(i as int).push(listed[i as int]));
        i += 1;
    }
    assert(listed.take(i as int) =~= listed);
    assert(listed =~= Seq::new(
        calls_view(calls@).len(),
        |i: int| wire_call(calls_view(calls@)[i]),
    ));
    Some(items.done())
}

/// A text, or null where there is none.
pub open spec fn text_or_null(text: Option<Seq<char>>) -> JsonView {
    match text {
        Some(t) => JsonView::Text(t),
        None => JsonView::Null,
    }
}

/// A text, or null where there is none.
pub fn text_or_null_json(text: &Option<String>) -> (r: Json)
    ensures
        r@ == text_or_null(option_text(*text)),
{
    match text {
        Some(t) => Json::text(t),
        None => Json::Null,
    }
}

/// The text in a field that may be absent or null; nothing where the field holds something else.
pub open spec fn optional_text(v: JsonView, key: Seq<char>) -> Option<Option<Seq<char>>> {
    match v.field(key) {
        None => Some(None),
        Some(JsonView::Null) => Some(None),
        Some(JsonView::Text(t)) => Some(Some(t)),
        Some(_) => None,
    }
}

/// The text in a field that may be absent or null; nothing where the field holds something else.
pub fn read_optional_text(v: &Json, key: &str) -> (r: Option<Option<String>>)
    ensures
        match r {
            Some(t) => optional_text(v@, key@) == Some(option_text(t)),
            None => optional_text(v@, key@) is None,
        },
{
    match v.get(key) {
        None => Some(None),
        Some(Json::Null) => Some(None),
        Some(Json::Text(t)) => Some(Some(t.clone())),
        Some(_) => None,
    }
}

/// The value in a field that may be absent or null.
pub open spec fn optional_value(v: JsonView, key: Seq<char>) -> Option<JsonView> {
    match v.field(key) {
        None => None,
        Some(JsonView::Null) => None,
        Some(found) => Some(found),
    }
}

/// The value in a field that may be absent or null.
pub fn read_optional_value(v: &Json, key: &str) -> (r: Option<Json>)
    ensures
        option_json(r) == optional_value(v@, key@),
{
    match v.get(key) {
        None => None,
        Some(Json::Null) => None,
        Some(found) => Some(found.copy()),
    }
}

/// The count in a field that may be absent or null; nothing where the field holds something else.
pub open spec fn optional_count(v: JsonView, key: Seq<char>) -> Option<Option<u64>> {
    match v.field(key) {
        None => Some(None),
        Some(JsonView::Null) => Some(None),
        Some(JsonView::Unsigned(n)) => Some(Some(n)),
        Some(_) => None,
    }
}

/// The count in a field that may be absent or null; nothing where the field holds something else.
pub fn read_optional_count(v: &Json, key: &str) -> (r: Option<Option<u64>>)
    ensures
        r == optional_count(v@, key@),
{
    match v.get(key) {
        None => Some(None),
        Some(Json::Null) => Some(None),
        Some(Json::Unsigned(n)) => Some(Some(*n)),
        Some(_) => None,
    }
}

/// The names of the token counts of a reply, in the order in which a list holds them.
pub open spec fn usage_names() -> Seq<&'static str> {
    seq!["prompt_tokens", "completion_tokens", "total_tokens"]
}

/// The token counts of a reply; nothing where they have another shape.
pub open spec fn optional_usage(v: JsonView) -> Option<Option<ChatUsage>> {
    match v.field("usage"@) {
        None => Some(None),
        Some(JsonView::Null) => Some(None),
        Some(found) => {
            let usage = with_names(found, usage_names());
            if usage is Object {
                match (
                    optional_count(usage, "prompt_tokens"@),
                    optional_count(usage, "completion_tokens"@),
                    optional_count(usage, "total_tokens"@),
                ) {
                    (Some(prompt_tokens), Some(completion_tokens), Some(total_tokens)) => Some(
                        Some(ChatUsage { prompt_tokens, completion_tokens, total_tokens }),
                    ),
                    _ => None,
                }
            } else {
                None
            }
        },
    }
}

/// Whether a value is an object.
pub fn is_object(v: &Json) -> (r: bool)
    ensures
        r == (v@ is Object),
{
    match v {
        Json::Object(_) => true,
        _ => false,
    }
}

/// The token counts of a reply; nothing where they have another shape.
pub fn read_usage(v: &Json) -> (r: Option<Option<ChatUsage>>)
    ensures
        r == optional_usage(v@),
{
    let usage = match v.get("usage") {
        None => {
            return Some(None);
        },
        Some(Json::Null) => {
            return Some(None);
        },
        Some(found) => {
            let names = vec!["prompt_tokens", "completion_tokens", "total_tokens"];
            assert(names@ =~= usage_names());
            named(found, names)
        },
    };
    if !is_object(&usage) {
        return None;
    }
    match (
        read_optional_count(&usage, "prompt_tokens"),
        read_optional_count(&usage, "completion_tokens"),
        read_optional_count(&usage, "total_tokens"),
    ) {
        (Some(prompt_tokens), Some(completion_tokens), Some(total_tokens)) => Some(
            Some(ChatUsage { prompt_tokens, completion_tokens, total_tokens }),
        ),
        _ => None,
    }
}

/// A tool call in a reply, with its kind.
#[derive(Debug, PartialEq, Eq)]
pub struct WireCall {
    pub id: String,
    pub call_type: String,
    pub name: String,
    pub arguments: String,
}

/// What a tool call in a reply holds.
pub struct WireCallView {
    pub id: Seq<char>,
    pub call_type: Seq<char>,
    pub name: Seq<char>,
    pub arguments: Seq<char>,
}

impl View for WireCall {
    type V = WireCallView;

    open spec fn view(&self) -> WireCallView {
        WireCallView {
            id: self.id@,
            call_type: self.call_type@,
            name: self.name@,
            arguments: self.arguments@,
        }
    }
}

/// The tool calls of a reply.
pub open spec fn wire_calls_view(calls: Seq<WireCall>) -> Seq<WireCallView> {
    Seq::new(calls.len(), |i: int| calls[i]@)
}

/// The names of the fields of a tool call, in the order in which a list holds them.
pub open spec fn call_names() -> Seq<&'static str> {
    seq!["id", "type", "function"]
}

/// The names of the fields of the function in a tool call, in the order in which a list holds them.
pub open spec fn function_names() -> Seq<&'static str> {
    seq!["name", "arguments"]
}

/// A tool call in a reply; nothing where it has another shape.
pub open spec fn call_in(v: JsonView) -> Option<WireCallView> {
    let call = with_names(v, call_names());
    match (call.text_field("id"@), call.text_field("type"@), call.field("function"@)) {
        (Some(id), Some(call_type), Some(found)) => {
            let function = with_names(found, function_names());
            match (function.text_field("name"@), function.text_field("arguments"@)) {
                (Some(name), Some(arguments)) => Some(
                    WireCallView { id, call_type, name, arguments },
                ),
                _ => None,
            }
        },
        _ => None,
    }
}

/// A tool call in a reply; nothing where it has another shape.
pub fn read_call(v: &Json) -> (r: Option<WireCall>)
    ensures
        match r {
            Some(call) => call_in(v@) == Some(call@),
            None => call_in(v@) is None,
        },
{
    let names = vec!["id", "type", "function"];
    assert(names@ =~= call_names());
    let call = named(v, names);
    match (call.text_at("id"), call.text_at("type"), call.get("function")) {
        (Some(id), Some(call_type), Some(found)) => {
            let names = vec!["name", "arguments"];
            assert(names@ =~= function_names());
            let function = named(found, names);
            match (function.text_at("name"), function.text_at("arguments")) {
                (Some(name), Some(arguments)) => Some(WireCall { id, call_type, name, arguments }),
                _ => None,
            }
        },
        _ => None,
    }
}

/// The tool calls in a list; nothing where one has another shape.
pub open spec fn calls_in(items: Seq<JsonView>) -> Option<Seq<WireCallView>>
    decreases items.len(),
{
    if items.len() == 0 {
        Some(Seq::empty())
    } else {
        match (calls_in(items.drop_last()), call_in(items.last())) {
            (Some(front), Some(call)) => Some(front.push(call)),
            _ => None,
        }
    }
}

/// One call of another shape spoils the list.
proof fn lemma_calls_in_none(items: Seq<JsonView>, n: int)
    requires
        0 <= n <= items.len(),
        calls_in(items.take(n)) is None,
    ensures
        calls_in(items) is None,
    decreases items.len() - n,
{
    if n < items.len() {
        assert(items.take(n + 1).drop_last() =~= items.take(n));
        lemma_calls_in_none(items, n + 1);
    } else {
        assert(items.take(n) =~= items);
    }
}

/// The tool calls of a message, none where the field is absent or null; nothing where they have
/// another shape.
pub open spec fn message_calls(message: JsonView) -> Option<Seq<WireCallView>> {
    match message.field("tool_calls"@) {
        None => Some(Seq::empty()),
        Some(JsonView::Null) => Some(Seq::empty()),
        Some(JsonView::Array(items)) => calls_in(items),
        Some(_) => None,
    }
}

/// The tool calls of a message.
pub fn read_message_calls(message: &Json) -> (r: Option<Vec<WireCall>>)
    ensures
        match r {
            Some(calls) => message_calls(message@) == Some(wire_calls_view(calls@)),
            None => message_calls(message@) is None,
        },
{
    let mut calls: Vec<WireCall> = Vec::new();
    assert(wire_calls_view(calls@) =~= Seq::empty());
    let found = match message.get("tool_calls") {
        None => {
            return Some(calls);
        },
        Some(Json::Null) => {
            return Some(calls);
        },
        Some(found) => found,
    };
    let items = match found.as_array() {
        Some(items) => items,
        None => {
            return None;
        },
    };
    let ghost all = items_view(items@);
    let mut i: usize = 0;
    while i < items.len()
        invariant
            i <= items@.len(),
            all == items_view(items@),
            message_calls(message@) == calls_in(all),
            calls_in(all.take(i as int)) == Some(wire_calls_view(calls@)),
        decreases items@.len() - i,
    {
        proof {
            assert(all.take(i + 1).drop_last() =~= all.take(i as int));
            assert(all.take(i + 1).last() == items@[i as int]@);
        }
        match read_call(&items[i]) {
            Some(call) => {
                let ghost before = wire_calls_view(calls@);
                calls.push(call);
                assert(wire_calls_view(calls@) =~= before.push(call@));
            },
            None => {
                proof {
                    lemma_calls_in_none(all, i + 1);
                }
                return None;
            },
        }
        i += 1;
    }
    assert(all.take(i as int) =~= all);
    Some(calls)
}

/// The calls in order, or the kind of the first one that is no function call.
pub open spec fn function_calls(calls: Seq<WireCallView>) -> Result<Seq<ToolCallView>, Seq<char>>
    decreases calls.len(),
{
    if calls.len() == 0 {
        Ok(Seq::empty())
    } else {
        match function_calls(calls.drop_last()) {
            Err(kind) => Err(kind),
            Ok(front) => if calls.last().call_type == "function"@ {
                Ok(
                    front.push(
                        ToolCallView {
                            id: calls.last().id,
                            name: calls.last().name,
                            arguments: calls.last().arguments,
                        },
                    ),
                )
            } else {
                Err(calls.last().call_type)
            },
        }
    }
}

/// A call of another kind in the front part decides for the whole.
proof fn lemma_function_calls_error(calls: Seq<WireCallView>, n: int)
    requires
        0 <= n <= calls.len(),
        function_calls(calls.take(n)) is Err,
    ensures
        function_calls(calls) == function_calls(calls.take(n)),
    decreases calls.len() - n,
{
    if n < calls.len() {
        assert(calls.take(n + 1).drop_last() =~= calls.take(n));
        lemma_function_calls_error(calls, n + 1);
    } else {
        assert(calls.take(n) =~= calls);
    }
}

/// The calls in order, or the kind of the first one that is no function call.
pub fn take_function_calls(calls: &Vec<WireCall>) -> (r: Result<Vec<ToolCall>, String>)
    ensures
        match r {
            Ok(list) => function_calls(wire_calls_view(calls@)) == Ok::<_, Seq<char>>(
                calls_view(list@),
            ),
            Err(kind) => function_calls(wire_calls_view(calls@)) == Err::<Seq<ToolCallView>, _>(
                kind@,
            ),
        },
{
    let mut list: Vec<ToolCall> = Vec::new();
    assert(calls_view(list@) =~= Seq::empty());
    let ghost all = wire_calls_view(calls@);
    let mut i: usize = 0;
    while i < calls.len()
        invariant
            i <= calls@.len(),
            all == wire_calls_view(calls@),
            function_calls(all.take(i as int)) == Ok::<_, Seq<char>>(calls_view(list@)),
        decreases calls@.len() - i,
    {
        let call = &calls[i];
        proof {
            assert(all.take(i + 1).drop_last() =~= all.take(i as int));
            assert(all.take(i + 1).last() == call@);
        }
        if !same_text(&call.call_type, "function") {
            proof {
                lemma_function_calls_error(all, i + 1);
            }
            return Err(call.call_type.clone());
        }
        let ghost before = calls_view(list@);
        let one = ToolCall {
            id: call.id.clone(),
            name: call.name.clone(),
            arguments: call.arguments.clone(),
        };
        list.push(one);
        assert(calls_view(list@) =~= before.push(one@));
        i += 1;
    }
    assert(all.take(i as int) =~= all);
    Ok(list)
}

/// Whether a value holds the pieces of a user message: a text where the message is one text and
/// nothing else, and otherwise a list with a text or an image for each piece, in their order.
pub open spec fn holds_parts(v: JsonView, parts: Seq<PartView>) -> bool {
    match v {
        JsonView::Text(text) => parts == seq![PartView::Text(text)],
        JsonView::Array(items) => {
            &&& !(parts.len() == 1 && parts[0] is Text)
            &&& items.len() == parts.len()
            &&& forall|k: int|
                0 <= k < parts.len() ==> match #[trigger] parts[k] {
                    PartView::Text(text) => items[k].text_field("type"@) == Some("text"@)
                        && items[k].text_field("text"@) == Some(text),
                    PartView::Image(url) => items[k].text_field("type"@) == Some("image_url"@)
                        && items[k].nested_text("image_url"@, "url"@) == Some(url),
                }
        },
        _ => false,
    }
}

/// Whether a message of a request repeats tool calls, each with its id, its name and its arguments.
pub open spec fn holds_calls(message: JsonView, calls: Seq<ToolCallView>) -> bool {
    if calls.len() == 0 {
        message.field("tool_calls"@) is None
    } else {
        match message.array_field("tool_calls"@) {
            Some(items) => items.len() == calls.len() && forall|k: int|
                0 <= k < calls.len() ==> {
                    &&& items[k].text_field("id"@) == Some((#[trigger] calls[k]).id)
                    &&& items[k].text_field("type"@) == Some("function"@)
                    &&& items[k].nested_text("function"@, "name"@) == Some(calls[k].name)
                    &&& items[k].nested_text("function"@, "arguments"@) == Some(
                        calls[k].arguments,
                    )
                },
            None => false,
        }
    }
}

/// Whether an item of a request holds a message: its role, its own content, and for a result the
/// call that it answers.
pub open spec fn holds_message(item: JsonView, message: MessageView) -> bool {
    match message {
        MessageView::System { content } => item.text_field("role"@) == Some("system"@)
            && item.text_field("content"@) == Some(content),
        MessageView::User { content } => item.text_field("role"@) == Some("user"@) && (item.field(
            "content"@,
        ) matches Some(v) && holds_parts(v, content)),
        MessageView::Assistant { content, reasoning, tool_calls } => {
            &&& item.text_field("role"@) == Some("assistant"@)
            &&& item.field("content"@) == Some(
                match content {
                    Some(text) => JsonView::Text(text),
                    None => JsonView::Null,
                },
            )
            &&& holds_calls(item, tool_calls)
        },
        MessageView::Tool { tool_call_id, content } => {
            &&& item.text_field("role"@) == Some("tool"@)
            &&& item.text_field("tool_call_id"@) == Some(tool_call_id)
            &&& item.text_field("content"@) == Some(content)
        },
    }
}

/// Whether a request offers tools, each with its name, its description and its parameters, and leaves
/// the choice to the model; without tools it says nothing of them.
pub open spec fn offers_tools(request: JsonView, tools: Seq<ToolDefinitionView>) -> bool {
    if tools.len() == 0 {
        request.field("tools"@) is None && request.field("tool_choice"@) is None
    } else {
        &&& request.text_field("tool_choice"@) == Some("auto"@)
        &&& match request.array_field("tools"@) {
            Some(items) => items.len() == tools.len() && forall|k: int|
                0 <= k < tools.len() ==> {
                    &&& items[k].text_field("type"@) == Some("function"@)
                    &&& items[k].nested_text("function"@, "name"@) == Some(
                        (#[trigger] tools[k]).name,
                    )
                    &&& items[k].nested_text("function"@, "description"@) == Some(
                        tools[k].description,
                    )
                    &&& (items[k].field("function"@) matches Some(f) && f.field("parameters"@)
                        == Some(tools[k].parameters))
                },
            None => false,
        }
    }
}

/// The names of fields in requests are told apart.
pub(crate) proof fn lemma_wire_names()
    ensures
        "role"@ != "content"@,
        "role"@ != "tool_call_id"@,
        "role"@ != "tool_calls"@,
        "role"@ != "reasoning"@,
        "role"@ != "reasoning_content"@,
        "role"@ != "reasoning_details"@,
        "content"@ != "tool_call_id"@,
        "content"@ != "tool_calls"@,
        "content"@ != "reasoning"@,
        "content"@ != "reasoning_content"@,
        "content"@ != "reasoning_details"@,
        "tool_calls"@ != "reasoning"@,
        "tool_calls"@ != "reasoning_content"@,
        "tool_calls"@ != "reasoning_details"@,
        "reasoning"@ != "reasoning_details"@,
        "type"@ != "text"@,
        "type"@ != "image_url"@,
        "type"@ != "function"@,
        "type"@ != "id"@,
        "id"@ != "function"@,
        "name"@ != "arguments"@,
        "name"@ != "description"@,
        "name"@ != "parameters"@,
        "description"@ != "parameters"@,
        "url"@ != "detail"@,
{
    reveal_strlit("role");
    reveal_strlit("content");
    reveal_strlit("tool_call_id");
    reveal_strlit("tool_calls");
    reveal_strlit("reasoning");
    reveal_strlit("reasoning_content");
    reveal_strlit("reasoning_details");
    reveal_strlit("type");
    reveal_strlit("text");
    reveal_strlit("image_url");
    reveal_strlit("function");
    reveal_strlit("id");
    reveal_strlit("name");
    reveal_strlit("arguments");
    reveal_strlit("description");
    reveal_strlit("parameters");
    reveal_strlit("url");
    reveal_strlit("detail");
    assert("role"@[0] == 'r' && "content"@[0] == 'c' && "tool_calls"@[0] == 't');
    assert("type"@[1] == 'y' && "text"@[1] == 'e' && "name"@[0] == 'n');
    assert("arguments"@[0] == 'a' && "description"@[0] == 'd' && "parameters"@[0] == 'p');
    assert("tool_calls"@.len() == 10 && "reasoning_content"@.len() == 17);
    assert("reasoning"@.len() == 9 && "reasoning_details"@.len() == 17);
    assert("content"@.len() == 7 && "tool_call_id"@.len() == 12 && "image_url"@.len() == 9);
    assert("function"@.len() == 8 && "id"@.len() == 2 && "url"@.len() == 3);
    assert("detail"@.len() == 6);
}

/// What an object of two fields holds.
pub(crate) proof fn lemma_object2(k1: Seq<char>, v1: JsonView, k2: Seq<char>, v2: JsonView)
    requires
        k1 != k2,
    ensures
        object2(k1, v1, k2, v2).field(k1) == Some(v1),
        object2(k1, v1, k2, v2).field(k2) == Some(v2),
{
    let fields = object2(k1, v1, k2, v2)->Object_0;
    lemma_field_at(fields, k1, 0);
    lemma_field_at(fields, k2, 1);
}

/// What an object of three fields holds.
pub(crate) proof fn lemma_object3(
    k1: Seq<char>,
    v1: JsonView,
    k2: Seq<char>,
    v2: JsonView,
    k3: Seq<char>,
    v3: JsonView,
)
    requires
        k1 != k2,
        k1 != k3,
        k2 != k3,
    ensures
        object3(k1, v1, k2, v2, k3, v3).field(k1) == Some(v1),
        object3(k1, v1, k2, v2, k3, v3).field(k2) == Some(v2),
        object3(k1, v1, k2, v2, k3, v3).field(k3) == Some(v3),
{
    let fields = object3(k1, v1, k2, v2, k3, v3)->Object_0;
    lemma_field_at(fields, k1, 0);
    lemma_field_at(fields, k2, 1);
    lemma_field_at(fields, k3, 2);
}

/// What is found in fields with one more.
pub(crate) proof fn lemma_more_fields(
    fields: Seq<(Seq<char>, JsonView)>,
    name: Seq<char>,
    value: Option<JsonView>,
    key: Seq<char>,
)
    ensures
        JsonView::Object(with_field(fields, name, value)).field(key) == match JsonView::Object(
            fields,
        ).field(key) {
            Some(v) => Some(v),
            None => if key == name {
                value
            } else {
                None
            },
        },
{
    lemma_position(fields, key);
    let more = with_field(fields, name, value);
    match position_of(fields, key) {
        Some(i) => {
            assert forall|j: int| 0 <= j < i implies (#[trigger] more[j]).0 != key by {
                assert(more[j] == fields[j]);
            }
            lemma_field_at(more, key, i);
        },
        None => {
            assert forall|j: int| 0 <= j < fields.len() implies (#[trigger] more[j]).0 != key by {
                assert(more[j] == fields[j]);
            }
            if value is Some && key == name {
                lemma_field_at(more, key, fields.len() as int);
            } else {
                lemma_no_field(more, key);
            }
        },
    }
}

pub(crate) proof fn lemma_wire_call(call: ToolCallView)
    ensures
        wire_call(call).text_field("id"@) == Some(call.id),
        wire_call(call).text_field("type"@) == Some("function"@),
        wire_call(call).nested_text("function"@, "name"@) == Some(call.name),
        wire_call(call).nested_text("function"@, "arguments"@) == Some(call.arguments),
{
    lemma_wire_names();
    let inner = object2(
        "name"@,
        JsonView::Text(call.name),
        "arguments"@,
        JsonView::Text(call.arguments),
    );
    lemma_object2("name"@, JsonView::Text(call.name), "arguments"@, JsonView::Text(call.arguments));
    lemma_object3(
        "id"@,
        JsonView::Text(call.id),
        "type"@,
        JsonView::Text("function"@),
        "function"@,
        inner,
    );
}

pub(crate) proof fn lemma_wire_tool(tool: ToolDefinitionView)
    ensures
        wire_tool(tool).text_field("type"@) == Some("function"@),
        wire_tool(tool).nested_text("function"@, "name"@) == Some(tool.name),
        wire_tool(tool).nested_text("function"@, "description"@) == Some(tool.description),
        wire_tool(tool).field("function"@) matches Some(f) && f.field("parameters"@) == Some(
            tool.parameters,
        ),
{
    lemma_wire_names();
    let inner = object3(
        "name"@,
        JsonView::Text(tool.name),
        "description"@,
        JsonView::Text(tool.description),
        "parameters"@,
        tool.parameters,
    );
    lemma_object3(
        "name"@,
        JsonView::Text(tool.name),
        "description"@,
        JsonView::Text(tool.description),
        "parameters"@,
        tool.parameters,
    );
    lemma_object2("type"@, JsonView::Text("function"@), "function"@, inner);
}

/// A message that holds the calls under their name holds them all.
pub(crate) proof fn lemma_holds_calls(message: JsonView, calls: Seq<ToolCallView>)
    requires
        message.field("tool_calls"@) == wire_calls(calls),
    ensures
        holds_calls(message, calls),
{
    if calls.len() > 0 {
        let items = message.array_field("tool_calls"@).unwrap();
        assert forall|k: int| 0 <= k < calls.len() implies {
            &&& items[k].text_field("id"@) == Some((#[trigger] calls[k]).id)
            &&& items[k].text_field("type"@) == Some("function"@)
            &&& items[k].nested_text("function"@, "name"@) == Some(calls[k].name)
            &&& items[k].nested_text("function"@, "arguments"@) == Some(calls[k].arguments)
        } by {
            lemma_wire_call(calls[k]);
        }
    }
}

/// A request that holds the tools and the choice under their names offers them all.
pub(crate) proof fn lemma_offers_tools(request: JsonView, tools: Seq<ToolDefinitionView>)
    requires
        request.field("tools"@) == wire_tools(tools),
        request.field("tool_choice"@) == wire_choice(tools),
    ensures
        offers_tools(request, tools),
{
    if tools.len() > 0 {
        let items = request.array_field("tools"@).unwrap();
        assert forall|k: int| 0 <= k < tools.len() implies {
            &&& items[k].text_field("type"@) == Some("function"@)
            &&& items[k].nested_text("function"@, "name"@) == Some((#[trigger] tools[k]).name)
            &&& items[k].nested_text("function"@, "description"@) == Some(tools[k].description)
            &&& (items[k].field("function"@) matches Some(f) && f.field("parameters"@) == Some(
                tools[k].parameters,
            ))
        } by {
            lemma_wire_tool(tools[k]);
        }
    }
}

/// Whether calls are those that a message of a reply makes: as many, in the same order, each with its
/// id, its name and its arguments.
pub open spec fn calls_are_of(calls: Seq<ToolCallView>, message: JsonView) -> bool {
    match message.array_field("tool_calls"@) {
        Some(items) => calls.len() == items.len() && forall|k: int|
            0 <= k < items.len() && (#[trigger] items[k]) is Object && (items[k].field(
                "function"@,
            ) matches Some(f) && f is Object) ==> {
                &&& items[k].text_field("type"@) == Some("function"@)
                &&& items[k].text_field("id"@) == Some(calls[k].id)
                &&& items[k].nested_text("function"@, "name"@) == Some(calls[k].name)
                &&& items[k].nested_text("function"@, "arguments"@) == Some(calls[k].arguments)
            },
        None => calls.len() == 0,
    }
}

proof fn lemma_calls_in(items: Seq<JsonView>, calls: Seq<WireCallView>)
    requires
        calls_in(items) == Some(calls),
    ensures
        calls.len() == items.len(),
        forall|k: int| 0 <= k < items.len() ==> call_in(#[trigger] items[k]) == Some(calls[k]),
    decreases items.len(),
{
    if items.len() > 0 {
        let front = calls_in(items.drop_last()).unwrap();
        lemma_calls_in(items.drop_last(), front);
        assert forall|k: int| 0 <= k < items.len() implies call_in(#[trigger] items[k]) == Some(
            calls[k],
        ) by {
            if k < items.len() - 1 {
                assert(items.drop_last()[k] == items[k]);
            }
        }
    }
}

proof fn lemma_function_calls(calls: Seq<WireCallView>, taken: Seq<ToolCallView>)
    requires
        function_calls(calls) == Ok::<_, Seq<char>>(taken),
    ensures
        taken.len() == calls.len(),
        forall|k: int|
            0 <= k < calls.len() ==> (#[trigger] calls[k]).call_type == "function"@ && taken[k].id
                == calls[k].id && taken[k].name == calls[k].name && taken[k].arguments
                == calls[k].arguments,
    decreases calls.len(),
{
    if calls.len() > 0 {
        let front = function_calls(calls.drop_last())->Ok_0;
        lemma_function_calls(calls.drop_last(), front);
        assert forall|k: int| 0 <= k < calls.len() implies (#[trigger] calls[k]).call_type
            == "function"@ && taken[k].id == calls[k].id && taken[k].name == calls[k].name
            && taken[k].arguments == calls[k].arguments by {
            if k < calls.len() - 1 {
                assert(calls.drop_last()[k] == calls[k]);
            }
        }
    }
}

/// The function calls of a message are those that it makes.
pub(crate) proof fn lemma_calls_are_of(
    message: JsonView,
    calls: Seq<WireCallView>,
    taken: Seq<ToolCallView>,
)
    requires
        message_calls(message) == Some(calls),
        function_calls(calls) == Ok::<_, Seq<char>>(taken),
    ensures
        calls_are_of(taken, message),
{
    lemma_function_calls(calls, taken);
    if let Some(items) = message.array_field("tool_calls"@) {
        lemma_calls_in(items, calls);
        assert forall|k: int|
            0 <= k < items.len() && (#[trigger] items[k]) is Object && (items[k].field(
                "function"@,
            ) matches Some(f) && f is Object) implies {
            &&& items[k].text_field("type"@) == Some("function"@)
            &&& items[k].text_field("id"@) == Some(taken[k].id)
            &&& items[k].nested_text("function"@, "name"@) == Some(taken[k].name)
            &&& items[k].nested_text("function"@, "arguments"@) == Some(taken[k].arguments)
        } by {
            assert(call_in(items[k]) == Some(calls[k]));
            assert(calls[k].call_type == "function"@);
        }
    }
}

/// Whether token counts are those that a reply states.
pub open spec fn usage_is_of(usage: Option<ChatUsage>, reply: JsonView) -> bool {
    match reply.field("usage"@) {
        None => usage is None,
        Some(JsonView::Null) => usage is None,
        Some(found) => found is Object ==> (usage matches Some(counts) && counts.prompt_tokens
            == found.unsigned_field("prompt_tokens"@) && counts.completion_tokens
            == found.unsigned_field("completion_tokens"@) && counts.total_tokens
            == found.unsigned_field("total_tokens"@)),
    }
}

pub(crate) proof fn lemma_usage_is_of(reply: JsonView)
    requires
        reply is Object,
        optional_usage(reply) is Some,
    ensures
        usage_is_of(optional_usage(reply).unwrap(), reply),
{
}

} // verus!
