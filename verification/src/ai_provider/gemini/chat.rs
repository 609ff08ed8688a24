//! Chat with tools over the Gemini interface: what is sent, and how replies are read.

use vstd::prelude::*;

use crate::ai_provider::chat_wire::{lemma_more_fields, lemma_object2, lemma_object3};
use crate::ai_provider::gemini::{
    build_gemini_chat_contents, chat_turns, data_url_error_text, data_url_parts, inline_data, inline_data_json,
    instruction_json, instruction_to_json, instructions, joined_instructions, parse_data_url,
    text_part, token_limit, turns_json, turns_to_json, DataUrlError,
};
use crate::ai_provider::{
    context_messages_without_tools, messages_view, option_reasoning, parts_view, plain_messages,
    ChatUsage, MessageView, PartView, ReasoningPayload, ReasoningState, ReasoningStateView,
    ReasoningView, ResponseView, ToolChatContentPart, ToolChatMessage, ToolChatResponse,
    ToolChatUserContent,
};
use crate::json::{
    fields_view, is_text, items_view, json_parsed, json_written, lemma_field_at, lemma_no_field,
    lookup, object1, object2, object3, option_json, option_text, parse_json, with_field, write_json,
    Fields, Items, Json, JsonView,
};
use crate::text::{
    begins_with, blank, decimal, decimal_of, is_blank, join, lemma_decimal_injective, same_text,
    texts,
};
use crate::tools::{
    calls_view, definitions_view, ToolCall, ToolCallView, ToolDefinition, ToolDefinitionView,
};

verus! {

/// Why a history cannot be sent.
#[derive(Debug, PartialEq, Eq)]
pub enum HistoryError {
    Image(DataUrlError),
    /// The kept reply has no list of parts.
    MissingParts,
    /// The kept reply and the message name different numbers of calls.
    CallCount,
    InvalidArguments,
    ArgumentsNotObject,
    /// The kept reply and the message name different tools.
    CallName,
    DuplicateCall { id: String },
    OrphanResult { id: String },
    UnansweredCalls,
}

/// What an error holds.
pub enum HistoryErrorView {
    Image(DataUrlError),
    MissingParts,
    CallCount,
    InvalidArguments,
    ArgumentsNotObject,
    CallName,
    DuplicateCall { id: Seq<char> },
    OrphanResult { id: Seq<char> },
    UnansweredCalls,
}

impl View for HistoryError {
    type V = HistoryErrorView;

    open spec fn view(&self) -> HistoryErrorView {
        match self {
            HistoryError::Image(e) => HistoryErrorView::Image(*e),
            HistoryError::MissingParts => HistoryErrorView::MissingParts,
            HistoryError::CallCount => HistoryErrorView::CallCount,
            HistoryError::InvalidArguments => HistoryErrorView::InvalidArguments,
            HistoryError::ArgumentsNotObject => HistoryErrorView::ArgumentsNotObject,
            HistoryError::CallName => HistoryErrorView::CallName,
            HistoryError::DuplicateCall { id } => HistoryErrorView::DuplicateCall { id: id@ },
            HistoryError::OrphanResult { id } => HistoryErrorView::OrphanResult { id: id@ },
            HistoryError::UnansweredCalls => HistoryErrorView::UnansweredCalls,
        }
    }
}

/// What an error says.
pub open spec fn history_error_text(error: HistoryErrorView) -> Seq<char> {
    match error {
        HistoryErrorView::Image(e) => data_url_error_text(e, "Gemini"@),
        HistoryErrorView::MissingParts => "Gemini 回传载荷缺少 parts"@,
        HistoryErrorView::CallCount => "Gemini 回传载荷与工具调用数量不一致"@,
        HistoryErrorView::InvalidArguments => "Gemini 工具参数不是有效 JSON"@,
        HistoryErrorView::ArgumentsNotObject => "Gemini 工具参数必须是 JSON 对象"@,
        HistoryErrorView::CallName => "Gemini 回传载荷与工具名称不一致"@,
        HistoryErrorView::DuplicateCall { id } => "Gemini 历史含重复的未完成工具调用："@ + id,
        HistoryErrorView::OrphanResult { id } => "Gemini 工具结果缺少对应调用："@ + id,
        HistoryErrorView::UnansweredCalls => "Gemini 历史存在缺少结果的工具调用"@,
    }
}

impl HistoryError {
    /// What the error says.
    pub fn message(&self) -> (r: String)
        ensures
            r@ == history_error_text(self@),
    {
        match self {
            HistoryError::Image(e) => e.message("Gemini"),
            HistoryError::MissingParts => "Gemini 回传载荷缺少 parts".to_owned(),
            HistoryError::CallCount => "Gemini 回传载荷与工具调用数量不一致".to_owned(),
            HistoryError::InvalidArguments => "Gemini 工具参数不是有效 JSON".to_owned(),
            HistoryError::ArgumentsNotObject => "Gemini 工具参数必须是 JSON 对象".to_owned(),
            HistoryError::CallName => "Gemini 回传载荷与工具名称不一致".to_owned(),
            HistoryError::DuplicateCall { id } => {
                let mut r = "Gemini 历史含重复的未完成工具调用：".to_owned();
                r.push_str(id);
                r
            },
            HistoryError::OrphanResult { id } => {
                let mut r = "Gemini 工具结果缺少对应调用：".to_owned();
                r.push_str(id);
                r
            },
            HistoryError::UnansweredCalls => "Gemini 历史存在缺少结果的工具调用".to_owned(),
        }
    }
}

/// Consecutive pieces of one speaker.
struct Turn {
    role: String,
    parts: Vec<Json>,
}

/// What consecutive pieces of one speaker hold.
pub struct PieceTurn {
    pub role: Seq<char>,
    pub parts: Seq<JsonView>,
}

impl Turn {
    spec fn model(self) -> PieceTurn {
        PieceTurn { role: self.role@, parts: items_view(self.parts@) }
    }
}

spec fn turn_models(turns: Seq<Turn>) -> Seq<PieceTurn> {
    Seq::new(turns.len(), |i: int| turns[i].model())
}

/// Turns with more pieces: they join the last turn where the speaker is the same; no pieces add
/// nothing.
pub open spec fn with_pieces(
    turns: Seq<PieceTurn>,
    role: Seq<char>,
    parts: Seq<JsonView>,
) -> Seq<PieceTurn> {
    if parts.len() == 0 {
        turns
    } else if turns.len() > 0 && turns.last().role == role {
        turns.drop_last().push(PieceTurn { role, parts: turns.last().parts + parts })
    } else {
        turns.push(PieceTurn { role, parts })
    }
}

/// Appends pieces: they join the last turn where the speaker is the same.
fn push_content(turns: &mut Vec<Turn>, role: &str, parts: Vec<Json>)
    ensures
        turn_models(final(turns)@) == with_pieces(
            turn_models(old(turns)@),
            role@,
            items_view(parts@),
        ),
{
    let ghost before = turn_models(turns@);
    if parts.len() == 0 {
        return;
    }
    if turns.len() > 0 && same_text(&turns[turns.len() - 1].role, role) {
        if let Some(last) = turns.pop() {
            let mut joined = last.parts;
            let ghost had = items_view(joined@);
            let ghost more = items_view(parts@);
            let mut rest = parts;
            joined.append(&mut rest);
            assert(items_view(joined@) =~= had + more);
            turns.push(Turn { role: last.role, parts: joined });
        }
        assert(turn_models(turns@) =~= with_pieces(before, role@, items_view(parts@)));
    } else {
        turns.push(Turn { role: role.to_owned(), parts });
        assert(turn_models(turns@) =~= with_pieces(before, role@, items_view(parts@)));
    }
}

/// What has been gathered of a history: the instructions, the turns, and the calls that wait for
/// a result.
pub struct HistoryView {
    pub system: Seq<Seq<char>>,
    pub turns: Seq<PieceTurn>,
    pub pending: Seq<(Seq<char>, JsonView)>,
}

struct History {
    system: Vec<String>,
    turns: Vec<Turn>,
    pending: Vec<(String, Json)>,
}

impl History {
    spec fn model(self) -> HistoryView {
        HistoryView {
            system: texts(self.system@),
            turns: turn_models(self.turns@),
            pending: fields_view(self.pending@),
        }
    }
}

/// The pieces of a user message; an image that cannot be sent is an error.
pub open spec fn user_pieces(parts: Seq<PartView>) -> Result<Seq<JsonView>, DataUrlError>
    decreases parts.len(),
{
    if parts.len() == 0 {
        Ok(Seq::empty())
    } else {
        match user_pieces(parts.drop_last()) {
            Err(e) => Err(e),
            Ok(front) => match parts.last() {
                PartView::Text(text) => Ok(front.push(text_part(text))),
                PartView::Image(data_url) => match data_url_parts(data_url) {
                    Ok((mime_type, data)) => Ok(
                        front.push(object1("inlineData"@, inline_data(mime_type, data))),
                    ),
                    Err(e) => Err(e),
                },
            },
        }
    }
}

/// An error in the front part is the error of the whole.
proof fn lemma_user_pieces_error(parts: Seq<PartView>, n: int)
    requires
        0 <= n <= parts.len(),
        user_pieces(parts.take(n)) is Err,
    ensures
        user_pieces(parts) == user_pieces(parts.take(n)),
    decreases parts.len() - n,
{
    if n < parts.len() {
        assert(parts.take(n + 1).drop_last() =~= parts.take(n));
        lemma_user_pieces_error(parts, n + 1);
    } else {
        assert(parts.take(n) =~= parts);
    }
}

fn read_user_pieces(content: &ToolChatUserContent) -> (r: Result<Vec<Json>, DataUrlError>)
    ensures
        match r {
            Ok(list) => user_pieces(content@) == Ok::<_, DataUrlError>(items_view(list@)),
            Err(e) => user_pieces(content@) == Err::<Seq<JsonView>, _>(e),
        },
{
    let parts = content.parts();
    let ghost all = content@;
    let mut list: Vec<Json> = Vec::new();
    assert(items_view(list@) =~= Seq::empty());
    let mut i: usize = 0;
    while i < parts.len()
        invariant
            i <= parts@.len(),
            all == content@,
            parts_view(parts@) == all,
            user_pieces(all.take(i as int)) == Ok::<_, DataUrlError>(items_view(list@)),
        decreases parts@.len() - i,
    {
        proof {
            assert(all.take(i + 1).drop_last() =~= all.take(i as int));
            assert(all.take(i + 1).last() == parts@[i as int]@);
        }
        let mut fields = Fields::new();
        match &parts[i] {
            ToolChatContentPart::Text { text } => {
                fields.put_text("text", text);
            },
            ToolChatContentPart::Image { data_url } => {
                match parse_data_url(data_url) {
                    Ok(image) => {
                        fields.put("inlineData", inline_data_json(&image));
                    },
                    Err(e) => {
                        proof {
                            lemma_user_pieces_error(all, i + 1);
                        }
                        return Err(e);
                    },
                }
            },
        }
        let ghost before = items_view(list@);
        let piece = fields.done();
        list.push(piece);
        assert(items_view(list@) =~= before.push(piece@));
        i += 1;
    }
    assert(all.take(i as int) =~= all);
    Ok(list)
}

/// The content that a reply of this provider was kept with.
pub open spec fn kept_content(reasoning: Option<ReasoningView>) -> Option<JsonView> {
    match reasoning {
        Some(ReasoningView::Structured(payload)) => if payload.text_field("provider"@) == Some(
            "gemini"@,
        ) {
            payload.field("content"@)
        } else {
            None
        },
        _ => None,
    }
}

/// The content that a reply of this provider was kept with.
fn replay_content(reasoning: &Option<ReasoningPayload>) -> (r: Option<&Json>)
    ensures
        match r {
            Some(v) => kept_content(option_reasoning(*reasoning)) == Some(v@),
            None => kept_content(option_reasoning(*reasoning)) is None,
        },
{
    match reasoning {
        Some(ReasoningPayload::Structured(payload)) => {
            let provider = payload.text_at("provider");
            if is_text(&provider, "gemini") {
                payload.get("content")
            } else {
                None
            }
        },
        _ => None,
    }
}

/// The function calls among pieces.
pub open spec fn calls_among(parts: Seq<JsonView>) -> Seq<JsonView>
    decreases parts.len(),
{
    if parts.len() == 0 {
        Seq::empty()
    } else {
        let front = calls_among(parts.drop_last());
        match parts.last().field("functionCall"@) {
            Some(call) => front.push(call),
            None => front,
        }
    }
}

/// The function calls among pieces.
fn read_calls_among(parts: &Vec<Json>) -> (r: Vec<Json>)
    ensures
        items_view(r@) == calls_among(items_view(parts@)),
{
    let ghost all = items_view(parts@);
    let mut list: Vec<Json> = Vec::new();
    assert(items_view(list@) =~= Seq::empty());
    let mut i: usize = 0;
    while i < parts.len()
        invariant
            i <= parts@.len(),
            all == items_view(parts@),
            items_view(list@) == calls_among(all.take(i as int)),
        decreases parts@.len() - i,
    {
        proof {
            assert(all.take(i + 1).drop_last() =~= all.take(i as int));
            assert(all.take(i + 1).last() == parts@[i as int]@);
        }
        if let Some(call) = parts[i].get("functionCall") {
            let ghost before = items_view(list@);
            let one = call.copy();
            list.push(one);
            assert(items_view(list@) =~= before.push(one@));
        }
        i += 1;
    }
    assert(all.take(i as int) =~= all);
    list
}

/// What the calls of a message have added so far.
pub struct CallsView {
    pub parts: Seq<JsonView>,
    pub pending: Seq<(Seq<char>, JsonView)>,
}

/// What a call adds: it waits for its result, and where no reply was kept it becomes a piece.
///
/// `kept` holds the calls of the kept reply, `arguments` what the arguments of the call hold.
pub open spec fn with_call(
    front: CallsView,
    call: ToolCallView,
    kept: Option<JsonView>,
    arguments: Option<JsonView>,
) -> Result<CallsView, HistoryErrorView> {
    match arguments {
        None => Err(HistoryErrorView::InvalidArguments),
        Some(args) => if !(args is Object) {
            Err(HistoryErrorView::ArgumentsNotObject)
        } else {
            let function = match kept {
                Some(raw) => raw,
                None => object2("name"@, JsonView::Text(call.name), "args"@, args),
            };
            if kept is Some && function.text_field("name"@) != Some(call.name) {
                Err(HistoryErrorView::CallName)
            } else if lookup(front.pending, call.id) is Some {
                Err(HistoryErrorView::DuplicateCall { id: call.id })
            } else {
                Ok(
                    CallsView {
                        parts: if kept is Some {
                            front.parts
                        } else {
                            front.parts.push(object1("functionCall"@, function))
                        },
                        pending: front.pending.push((call.id, function)),
                    },
                )
            }
        },
    }
}

/// What the first `n` calls of a message add.
pub open spec fn with_calls(
    start: CallsView,
    calls: Seq<ToolCallView>,
    kept: Option<Seq<JsonView>>,
    arguments: Seq<Option<JsonView>>,
    n: nat,
) -> Result<CallsView, HistoryErrorView>
    decreases n,
{
    if n == 0 {
        Ok(start)
    } else {
        match with_calls(start, calls, kept, arguments, (n - 1) as nat) {
            Err(e) => Err(e),
            Ok(front) => with_call(
                front,
                calls[n - 1],
                match kept {
                    Some(raw) => Some(raw[n - 1]),
                    None => None,
                },
                arguments[n - 1],
            ),
        }
    }
}

/// An error of the first `n` calls is the error of all.
proof fn lemma_with_calls_error(
    start: CallsView,
    calls: Seq<ToolCallView>,
    kept: Option<Seq<JsonView>>,
    arguments: Seq<Option<JsonView>>,
    n: nat,
    total: nat,
)
    requires
        n <= total,
        with_calls(start, calls, kept, arguments, n) is Err,
    ensures
        with_calls(start, calls, kept, arguments, total) == with_calls(
            start,
            calls,
            kept,
            arguments,
            n,
        ),
    decreases total - n,
{
    if n < total {
        lemma_with_calls_error(start, calls, kept, arguments, n + 1, total);
    }
}

/// The pieces of a message of the assistant: those of the kept reply, or its text.
pub open spec fn assistant_pieces(content: Option<Seq<char>>, kept: Option<JsonView>) -> Result<
    Seq<JsonView>,
    HistoryErrorView,
> {
    match kept {
        Some(raw) => match raw.array_field("parts"@) {
            Some(parts) => Ok(parts),
            None => Err(HistoryErrorView::MissingParts),
        },
        None => Ok(
            match content {
                Some(text) => seq![text_part(text)],
                None => Seq::empty(),
            },
        ),
    }
}

/// What a message of the assistant adds to a history.
pub open spec fn with_assistant(
    history: HistoryView,
    content: Option<Seq<char>>,
    reasoning: Option<ReasoningView>,
    calls: Seq<ToolCallView>,
    arguments: Seq<Option<JsonView>>,
) -> Result<HistoryView, HistoryErrorView> {
    let kept = kept_content(reasoning);
    match assistant_pieces(content, kept) {
        Err(e) => Err(e),
        Ok(parts) => {
            let raw_calls = calls_among(parts);
            if kept is Some && raw_calls.len() != calls.len() {
                Err(HistoryErrorView::CallCount)
            } else {
                let kept_calls = if kept is Some {
                    Some(raw_calls)
                } else {
                    None
                };
                match with_calls(
                    CallsView { parts, pending: history.pending },
                    calls,
                    kept_calls,
                    arguments,
                    calls.len(),
                ) {
                    Err(e) => Err(e),
                    Ok(done) => Ok(
                        HistoryView {
                            system: history.system,
                            turns: with_pieces(history.turns, "model"@, done.parts),
                            pending: done.pending,
                        },
                    ),
                }
            }
        },
    }
}

/// Calls without the first one that has `id`.
pub open spec fn without_call(
    pending: Seq<(Seq<char>, JsonView)>,
    id: Seq<char>,
) -> Seq<(Seq<char>, JsonView)>
    decreases pending.len(),
{
    if pending.len() == 0 {
        pending
    } else if pending[0].0 == id {
        pending.drop_first()
    } else {
        seq![pending[0]] + without_call(pending.drop_first(), id)
    }
}

/// The piece that answers a call: it repeats the name of the call, and its upstream id where it
/// has one.
pub open spec fn result_piece(function: JsonView, content: Seq<char>) -> JsonView {
    let fields = Seq::empty().push(
        (
            "name"@,
            match function.field("name"@) {
                Some(name) => name,
                None => JsonView::Null,
            },
        ),
    ).push(("response"@, object1("result"@, JsonView::Text(content))));
    object1("functionResponse"@, JsonView::Object(with_field(fields, "id"@, function.field("id"@))))
}

/// What a message adds to a history. `arguments` tells what the arguments of its calls hold.
pub open spec fn with_message(
    history: HistoryView,
    message: MessageView,
    arguments: Seq<Option<JsonView>>,
) -> Result<HistoryView, HistoryErrorView> {
    match message {
        MessageView::System { content } => Ok(
            HistoryView {
                system: history.system.push(content),
                turns: history.turns,
                pending: history.pending,
            },
        ),
        MessageView::User { content } => match user_pieces(content) {
            Ok(parts) => Ok(
                HistoryView {
                    system: history.system,
                    turns: with_pieces(history.turns, "user"@, parts),
                    pending: history.pending,
                },
            ),
            Err(e) => Err(HistoryErrorView::Image(e)),
        },
        MessageView::Assistant { content, reasoning, tool_calls } => with_assistant(
            history,
            content,
            reasoning,
            tool_calls,
            arguments,
        ),
        MessageView::Tool { tool_call_id, content } => match lookup(history.pending, tool_call_id) {
            None => Err(HistoryErrorView::OrphanResult { id: tool_call_id }),
            Some(function) => Ok(
                HistoryView {
                    system: history.system,
                    turns: with_pieces(
                        history.turns,
                        "user"@,
                        seq![result_piece(function, content)],
                    ),
                    pending: without_call(history.pending, tool_call_id),
                },
            ),
        },
    }
}

/// What messages make of a history, in order; the first error counts.
pub open spec fn history_of(
    messages: Seq<MessageView>,
    arguments: Seq<Seq<Option<JsonView>>>,
) -> Result<HistoryView, HistoryErrorView>
    decreases messages.len(),
{
    if messages.len() == 0 {
        Ok(
            HistoryView {
                system: Seq::empty(),
                turns: Seq::empty(),
                pending: Seq::empty(),
            },
        )
    } else {
        match history_of(messages.drop_last(), arguments) {
            Err(e) => Err(e),
            Ok(front) => with_message(front, messages.last(), arguments[messages.len() - 1]),
        }
    }
}

/// An error in the front part is the error of the whole.
proof fn lemma_history_error(
    messages: Seq<MessageView>,
    arguments: Seq<Seq<Option<JsonView>>>,
    n: int,
)
    requires
        0 <= n <= messages.len(),
        history_of(messages.take(n), arguments) is Err,
    ensures
        history_of(messages, arguments) == history_of(messages.take(n), arguments),
    decreases messages.len() - n,
{
    if n < messages.len() {
        assert(messages.take(n + 1).drop_last() =~= messages.take(n));
        lemma_history_error(messages, arguments, n + 1);
    } else {
        assert(messages.take(n) =~= messages);
    }
}

/// What the arguments of calls hold.
pub open spec fn parsed_calls(calls: Seq<ToolCallView>) -> Seq<Option<JsonView>> {
    Seq::new(calls.len(), |i: int| json_parsed(calls[i].arguments))
}

/// What the arguments of the calls of a message hold.
pub open spec fn parsed_arguments(message: MessageView) -> Seq<Option<JsonView>> {
    match message {
        MessageView::Assistant { content, reasoning, tool_calls } => parsed_calls(tool_calls),
        _ => Seq::empty(),
    }
}

/// What the arguments of the calls of each message hold.
pub open spec fn all_arguments(messages: Seq<MessageView>) -> Seq<Seq<Option<JsonView>>> {
    Seq::new(messages.len(), |i: int| parsed_arguments(messages[i]))
}

/// What parsed arguments hold.
pub open spec fn arguments_view(arguments: Seq<Option<Json>>) -> Seq<Option<JsonView>> {
    Seq::new(arguments.len(), |i: int| option_json(arguments[i]))
}

/// What the parsed arguments of each message hold.
pub open spec fn arguments_views(arguments: Seq<Vec<Option<Json>>>) -> Seq<
    Seq<Option<JsonView>>,
> {
    Seq::new(arguments.len(), |i: int| arguments_view(arguments[i]@))
}

/// Whether there are as many parsed arguments as calls.
pub open spec fn arguments_fit(
    messages: Seq<MessageView>,
    arguments: Seq<Seq<Option<JsonView>>>,
) -> bool {
    &&& arguments.len() == messages.len()
    &&& forall|i: int|
        0 <= i < messages.len() ==> (#[trigger] messages[i] matches MessageView::Assistant {
            content,
            reasoning,
            tool_calls,
        } ==> arguments[i].len() == tool_calls.len())
}

/// Taking out the first call with an id is removing it where it stands.
proof fn lemma_without_call(pending: Seq<(Seq<char>, JsonView)>, id: Seq<char>, i: int)
    requires
        0 <= i < pending.len(),
        pending[i].0 == id,
        forall|j: int| 0 <= j < i ==> (#[trigger] pending[j]).0 != id,
    ensures
        without_call(pending, id) == pending.remove(i),
        lookup(pending, id) == Some(pending[i].1),
    decreases pending.len(),
{
    if i == 0 {
        assert(pending.remove(0) =~= pending.drop_first());
    } else {
        let rest = pending.drop_first();
        assert(pending[0].0 != id);
        assert forall|j: int| 0 <= j < i - 1 implies (#[trigger] rest[j]).0 != id by {
            assert(rest[j] == pending[j + 1]);
        }
        lemma_without_call(rest, id, i - 1);
        assert(pending.remove(i) =~= seq![pending[0]] + rest.remove(i - 1));
    }
}

/// A call that stands nowhere is not found.
proof fn lemma_lookup_none(pending: Seq<(Seq<char>, JsonView)>, id: Seq<char>)
    requires
        forall|j: int| 0 <= j < pending.len() ==> (#[trigger] pending[j]).0 != id,
    ensures
        lookup(pending, id) is None,
    decreases pending.len(),
{
    if pending.len() > 0 {
        let rest = pending.drop_first();
        assert forall|j: int| 0 <= j < rest.len() implies (#[trigger] rest[j]).0 != id by {
            assert(rest[j] == pending[j + 1]);
        }
        assert(pending[0].0 != id);
        lemma_lookup_none(rest, id);
    }
}

/// The position of the first waiting call with an id, or the number of calls.
fn call_position(pending: &Vec<(String, Json)>, id: &str) -> (r: usize)
    ensures
        r <= pending@.len(),
        forall|j: int| 0 <= j < r ==> (#[trigger] fields_view(pending@)[j]).0 != id@,
        r < pending@.len() ==> fields_view(pending@)[r as int].0 == id@,
{
    let mut i: usize = 0;
    while i < pending.len()
        invariant
            i <= pending@.len(),
            forall|j: int| 0 <= j < i ==> (#[trigger] fields_view(pending@)[j]).0 != id@,
        decreases pending@.len() - i,
    {
        if same_text(&pending[i].0, id) {
            return i;
        }
        i += 1;
    }
    i
}

/// Takes out the first waiting call with an id.
fn take_call(pending: &mut Vec<(String, Json)>, id: &str) -> (r: Option<Json>)
    ensures
        option_json(r) == lookup(fields_view(old(pending)@), id@),
        fields_view(final(pending)@) == (if r is Some {
            without_call(fields_view(old(pending)@), id@)
        } else {
            fields_view(old(pending)@)
        }),
{
    let ghost before = fields_view(pending@);
    let i: usize = call_position(pending, id);
    if i < pending.len() {
        proof {
            lemma_without_call(before, id@, i as int);
        }
        let taken = pending.remove(i);
        assert(fields_view(pending@) =~= before.remove(i as int));
        Some(taken.1)
    } else {
        proof {
            lemma_lookup_none(before, id@);
        }
        None
    }
}

/// Adds a message of the assistant to a history.
fn push_assistant(
    history: &mut History,
    content: &Option<String>,
    reasoning: &Option<ReasoningPayload>,
    calls: &Vec<ToolCall>,
    arguments: &Vec<Option<Json>>,
) -> (r: Result<(), HistoryError>)
    requires
        arguments@.len() == calls@.len(),
    ensures
        match r {
            Ok(_) => with_assistant(
                old(history).model(),
                option_text(*content),
                option_reasoning(*reasoning),
                calls_view(calls@),
                arguments_view(arguments@),
            ) == Ok::<_, HistoryErrorView>(final(history).model()),
            Err(e) => with_assistant(
                old(history).model(),
                option_text(*content),
                option_reasoning(*reasoning),
                calls_view(calls@),
                arguments_view(arguments@),
            ) == Err::<HistoryView, _>(e@),
        },
{
    let replay = replay_content(reasoning);
    let ghost kept = kept_content(option_reasoning(*reasoning));
    let mut parts: Vec<Json> = Vec::new();
    assert(items_view(parts@) =~= Seq::empty());
    match replay {
        Some(raw) => {
            match raw.array_at("parts") {
                Some(found) => {
                    let ghost all = items_view(found@);
                    let mut i: usize = 0;
                    while i < found.len()
                        invariant
                            i <= found@.len(),
                            all == items_view(found@),
                            items_view(parts@) =~= all.take(i as int),
                        decreases found@.len() - i,
                    {
                        parts.push(found[i].copy());
                        assert(all.take(i + 1) =~= all.take(i as int).push(all[i as int]));
                        i += 1;
                    }
                    assert(all.take(i as int) =~= all);
                },
                None => {
                    return Err(HistoryError::MissingParts);
                },
            }
        },
        None => {
            if let Some(text) = content {
                let mut fields = Fields::new();
                fields.put_text("text", text);
                let piece = fields.done();
                parts.push(piece);
                assert(items_view(parts@) =~= seq![piece@]);
            }
        },
    }
    let ghost first = items_view(parts@);
    assert(assistant_pieces(option_text(*content), kept) == Ok::<_, HistoryErrorView>(first));
    let raw_calls = read_calls_among(&parts);
    let replayed = replay.is_some();
    if replayed && raw_calls.len() != calls.len() {
        return Err(HistoryError::CallCount);
    }
    let ghost kept_calls = if kept is Some {
        Some(items_view(raw_calls@))
    } else {
        None
    };
    let ghost start = CallsView { parts: first, pending: history.model().pending };
    let ghost all_calls = calls_view(calls@);
    let ghost args = arguments_view(arguments@);
    let mut i: usize = 0;
    while i < calls.len()
        invariant
            i <= calls@.len(),
            arguments@.len() == calls@.len(),
            replayed == (kept is Some),
            replayed ==> raw_calls@.len() == calls@.len(),
            all_calls == calls_view(calls@),
            args == arguments_view(arguments@),
            kept_calls == (if kept is Some {
                Some(items_view(raw_calls@))
            } else {
                None
            }),
            kept == kept_content(option_reasoning(*reasoning)),
            assistant_pieces(option_text(*content), kept) == Ok::<_, HistoryErrorView>(first),
            items_view(raw_calls@) == calls_among(first),
            start == (CallsView { parts: first, pending: old(history).model().pending }),
            history.model().system == old(history).model().system,
            history.model().turns == old(history).model().turns,
            with_calls(start, all_calls, kept_calls, args, i as nat) == Ok::<_, HistoryErrorView>(
                CallsView {
                    parts: items_view(parts@),
                    pending: fields_view(history.pending@),
                },
            ),
        decreases calls@.len() - i,
    {
        let call = &calls[i];
        assert(all_calls[i as int] == call@);
        assert(args[i as int] == option_json(arguments@[i as int]));
        let given = match &arguments[i] {
            Some(given) => given,
            None => {
                proof {
                    lemma_with_calls_error(
                        start,
                        all_calls,
                        kept_calls,
                        args,
                        (i + 1) as nat,
                        all_calls.len(),
                    );
                }
                return Err(HistoryError::InvalidArguments);
            },
        };
        let is_object = match given {
            Json::Object(_) => true,
            _ => false,
        };
        if !is_object {
            proof {
                lemma_with_calls_error(
                    start,
                    all_calls,
                    kept_calls,
                    args,
                    (i + 1) as nat,
                    all_calls.len(),
                );
            }
            return Err(HistoryError::ArgumentsNotObject);
        }
        let function = if replayed {
            let function = raw_calls[i].copy();
            assert(kept_calls.unwrap()[i as int] == function@);
            let name = function.text_at("name");
            if !is_text(&name, &call.name) {
                proof {
                    lemma_with_calls_error(
                        start,
                        all_calls,
                        kept_calls,
                        args,
                        (i + 1) as nat,
                        all_calls.len(),
                    );
                }
                return Err(HistoryError::CallName);
            }
            function
        } else {
            let mut fields = Fields::new();
            fields.put_text("name", &call.name);
            fields.put("args", given.copy());
            fields.done()
        };
        let at: usize = call_position(&history.pending, &call.id);
        if at < history.pending.len() {
            proof {
                lemma_without_call(fields_view(history.pending@), call.id@, at as int);
                lemma_with_calls_error(
                    start,
                    all_calls,
                    kept_calls,
                    args,
                    (i + 1) as nat,
                    all_calls.len(),
                );
            }
            return Err(HistoryError::DuplicateCall { id: call.id.clone() });
        }
        proof {
            lemma_lookup_none(fields_view(history.pending@), call.id@);
        }
        let ghost parts_before = items_view(parts@);
        if !replayed {
            let mut fields = Fields::new();
            fields.put("functionCall", function.copy());
            let piece = fields.done();
            parts.push(piece);
            assert(items_view(parts@) =~= parts_before.push(piece@));
        }
        let ghost waiting = fields_view(history.pending@);
        history.pending.push((call.id.clone(), function));
        assert(fields_view(history.pending@) =~= waiting.push((call.id@, function@)));
        i += 1;
    }
    push_content(&mut history.turns, "model", parts);
    Ok(())
}

/// Adds a message to a history.
fn push_message(
    history: &mut History,
    message: &ToolChatMessage,
    arguments: &Vec<Option<Json>>,
) -> (r: Result<(), HistoryError>)
    requires
        message@ matches MessageView::Assistant { content, reasoning, tool_calls }
            ==> arguments@.len() == tool_calls.len(),
    ensures
        match r {
            Ok(_) => with_message(old(history).model(), message@, arguments_view(arguments@))
                == Ok::<_, HistoryErrorView>(final(history).model()),
            Err(e) => with_message(old(history).model(), message@, arguments_view(arguments@))
                == Err::<HistoryView, _>(e@),
        },
{
    match message {
        ToolChatMessage::System { content } => {
            let ghost before = texts(history.system@);
            history.system.push(content.clone());
            assert(texts(history.system@) =~= before.push(content@));
            Ok(())
        },
        ToolChatMessage::User { content } => match read_user_pieces(content) {
            Ok(parts) => {
                push_content(&mut history.turns, "user", parts);
                Ok(())
            },
            Err(e) => Err(HistoryError::Image(e)),
        },
        ToolChatMessage::Assistant { content, reasoning, tool_calls } => push_assistant(
            history,
            content,
            reasoning,
            tool_calls,
            arguments,
        ),
        ToolChatMessage::Tool { tool_call_id, content } => {
            match take_call(&mut history.pending, tool_call_id) {
                None => Err(HistoryError::OrphanResult { id: tool_call_id.clone() }),
                Some(function) => {
                    let name = match function.get("name") {
                        Some(name) => name.copy(),
                        None => Json::Null,
                    };
                    let mut response = Fields::new();
                    response.put_text("result", content);
                    let mut result = Fields::new();
                    result.put("name", name);
                    result.put("response", response.done());
                    if let Some(id) = function.get("id") {
                        result.put("id", id.copy());
                    }
                    let mut fields = Fields::new();
                    fields.put("functionResponse", result.done());
                    let piece = fields.done();
                    let mut parts: Vec<Json> = Vec::new();
                    parts.push(piece);
                    assert(items_view(parts@) =~= seq![piece@]);
                    push_content(&mut history.turns, "user", parts);
                    Ok(())
                },
            }
        },
    }
}

/// A turn as a request holds it.
pub open spec fn piece_turn_json(turn: PieceTurn) -> JsonView {
    object2("role"@, JsonView::Text(turn.role), "parts"@, JsonView::Array(turn.parts))
}

/// Turns as a request holds them.
pub open spec fn piece_turns_json(turns: Seq<PieceTurn>) -> JsonView {
    JsonView::Array(Seq::new(turns.len(), |i: int| piece_turn_json(turns[i])))
}

/// The instructions and the contents of a request: a call that waits for its result is an error.
pub open spec fn contents_of(
    messages: Seq<MessageView>,
    arguments: Seq<Seq<Option<JsonView>>>,
) -> Result<(Option<JsonView>, JsonView), HistoryErrorView> {
    match history_of(messages, arguments) {
        Err(e) => Err(e),
        Ok(history) => if history.pending.len() > 0 {
            Err(HistoryErrorView::UnansweredCalls)
        } else {
            Ok(
                (
                    instruction_json(joined_instructions(history.system)),
                    piece_turns_json(history.turns),
                ),
            )
        },
    }
}

fn turn_to_json(turn: Turn) -> (r: Json)
    ensures
        r@ == piece_turn_json(turn.model()),
{
    let list = Json::Array(turn.parts);
    assert(list@->Array_0 =~= items_view(turn.parts@));
    let mut fields = Fields::new();
    fields.put_text("role", &turn.role);
    fields.put("parts", list);
    fields.done()
}

fn piece_turns_to_json(turns: Vec<Turn>) -> (r: Json)
    ensures
        r@ == piece_turns_json(turn_models(turns@)),
{
    let ghost all = turn_models(turns@);
    let ghost listed = Seq::new(all.len(), |i: int| piece_turn_json(all[i]));
    let mut rest = turns;
    let mut backwards: Vec<Json> = Vec::new();
    while rest.len() > 0
        invariant
            rest@.len() <= all.len(),
            turn_models(rest@) =~= all.take(rest@.len() as int),
            backwards@.len() == all.len() - rest@.len(),
            listed == Seq::new(all.len(), |i: int| piece_turn_json(all[i])),
            forall|j: int|
                0 <= j < backwards@.len() ==> (#[trigger] backwards@[j])@ == listed[all.len() - 1
                    - j],
        decreases rest@.len(),
    {
        let ghost count = rest@.len();
        let ghost before = rest@;
        if let Some(turn) = rest.pop() {
            assert(turn.model() == turn_models(before)[count - 1]);
            assert(turn.model() == all[count - 1]);
            backwards.push(turn_to_json(turn));
        }
    }
    let mut items = Items::new();
    while backwards.len() > 0
        invariant
            backwards@.len() <= listed.len(),
            listed.len() == all.len(),
            items@ =~= listed.take(all.len() - backwards@.len()),
            forall|j: int|
                0 <= j < backwards@.len() ==> (#[trigger] backwards@[j])@ == listed[all.len() - 1
                    - j],
        decreases backwards@.len(),
    {
        let ghost count = backwards@.len();
        let ghost before = backwards@;
        if let Some(one) = backwards.pop() {
            assert(before[count - 1] == one);
            items.push(one);
            assert(listed.take(all.len() - count + 1) =~= listed.take(all.len() - count).push(
                listed[all.len() - count],
            ));
        }
    }
    assert(listed.take(all.len() as int) =~= listed);
    items.done()
}

/// The instructions and the contents of a request, given what the arguments of the calls hold.
pub fn build_contents_from(
    messages: &Vec<ToolChatMessage>,
    arguments: &Vec<Vec<Option<Json>>>,
) -> (r: Result<(Option<Json>, Json), HistoryError>)
    requires
        arguments_fit(messages_view(messages@), arguments_views(arguments@)),
    ensures
        match r {
            Ok(c) => contents_of(messages_view(messages@), arguments_views(arguments@)) == Ok::<
                _,
                HistoryErrorView,
            >((option_json(c.0), c.1@)),
            Err(e) => contents_of(messages_view(messages@), arguments_views(arguments@)) == Err::<
                (Option<JsonView>, JsonView),
                _,
            >(e@),
        },
{
    let ghost all = messages_view(messages@);
    let ghost args = arguments_views(arguments@);
    let mut history = History { system: Vec::new(), turns: Vec::new(), pending: Vec::new() };
    proof {
        assert(texts(history.system@) =~= Seq::empty());
        assert(turn_models(history.turns@) =~= Seq::empty());
        assert(fields_view(history.pending@) =~= Seq::empty());
    }
    let mut i: usize = 0;
    while i < messages.len()
        invariant
            i <= messages@.len(),
            all == messages_view(messages@),
            args == arguments_views(arguments@),
            arguments_fit(all, args),
            history_of(all.take(i as int), args) == Ok::<_, HistoryErrorView>(history.model()),
        decreases messages@.len() - i,
    {
        proof {
            assert(all.take(i + 1).drop_last() =~= all.take(i as int));
            assert(all.take(i + 1).last() == messages@[i as int]@);
            assert(all[i as int] == messages@[i as int]@);
            assert(args[i as int] == arguments_view(arguments@[i as int]@));
        }
        match push_message(&mut history, &messages[i], &arguments[i]) {
            Ok(_) => {},
            Err(e) => {
                proof {
                    lemma_history_error(all, args, i + 1);
                }
                return Err(e);
            },
        }
        i += 1;
    }
    assert(all.take(i as int) =~= all);
    if history.pending.len() > 0 {
        return Err(HistoryError::UnansweredCalls);
    }
    let system = if history.system.len() == 0 {
        None
    } else {
        Some(join(&history.system, "\n\n"))
    };
    Ok((instruction_to_json(&system), piece_turns_to_json(history.turns)))
}

/// What the arguments of the calls of a message hold.
fn parse_arguments(message: &ToolChatMessage) -> (r: Vec<Option<Json>>)
    ensures
        arguments_view(r@) == parsed_arguments(message@),
{
    let mut list: Vec<Option<Json>> = Vec::new();
    assert(arguments_view(list@) =~= Seq::empty());
    if let ToolChatMessage::Assistant { tool_calls, .. } = message {
        let ghost all = parsed_calls(calls_view(tool_calls@));
        let mut i: usize = 0;
        while i < tool_calls.len()
            invariant
                i <= tool_calls@.len(),
                all == parsed_calls(calls_view(tool_calls@)),
                arguments_view(list@) =~= all.take(i as int),
            decreases tool_calls@.len() - i,
        {
            list.push(parse_json(&tool_calls[i].arguments));
            assert(all.take(i + 1) =~= all.take(i as int).push(all[i as int]));
            i += 1;
        }
        assert(all.take(i as int) =~= all);
    }
    list
}

/// The instructions and the contents of a request.
pub fn build_contents(messages: &Vec<ToolChatMessage>) -> (r: Result<
    (Option<Json>, Json),
    HistoryError,
>)
    ensures
        match r {
            Ok(c) => contents_of(
                messages_view(messages@),
                all_arguments(messages_view(messages@)),
            ) == Ok::<_, HistoryErrorView>((option_json(c.0), c.1@)),
            Err(e) => contents_of(
                messages_view(messages@),
                all_arguments(messages_view(messages@)),
            ) == Err::<(Option<JsonView>, JsonView), _>(e@),
        },
{
    let ghost all = messages_view(messages@);
    let mut arguments: Vec<Vec<Option<Json>>> = Vec::new();
    let mut i: usize = 0;
    while i < messages.len()
        invariant
            i <= messages@.len(),
            all == messages_view(messages@),
            arguments_views(arguments@) =~= all_arguments(all).take(i as int),
        decreases messages@.len() - i,
    {
        let one = parse_arguments(&messages[i]);
        let ghost before = arguments_views(arguments@);
        arguments.push(one);
        assert(arguments_views(arguments@) =~= before.push(arguments_view(one@)));
        assert(all_arguments(all).take(i + 1) =~= all_arguments(all).take(i as int).push(
            all_arguments(all)[i as int],
        ));
        i += 1;
    }
    assert(all_arguments(all).take(i as int) =~= all_arguments(all));
    build_contents_from(messages, &arguments)
}

/// Whether a message of the assistant carries reasoning.
pub open spec fn carries_reasoning(message: MessageView) -> bool {
    message matches MessageView::Assistant { content, reasoning, tool_calls } && reasoning is Some
}

/// Whether any message carries reasoning.
pub open spec fn any_reasoning(messages: Seq<MessageView>) -> bool {
    exists|i: int| 0 <= i < messages.len() && carries_reasoning(#[trigger] messages[i])
}

/// The instructions and the contents of a request. Messages that are nothing but text take the
/// short way, unless a reply was kept, which has to go back whole.
pub open spec fn request_contents(
    messages: Seq<MessageView>,
    arguments: Seq<Seq<Option<JsonView>>>,
) -> Result<(Option<JsonView>, JsonView), HistoryErrorView> {
    match plain_messages(messages) {
        Ok(plain) => if any_reasoning(messages) {
            contents_of(messages, arguments)
        } else {
            Ok(
                (
                    instruction_json(joined_instructions(instructions(plain))),
                    JsonView::Array(turns_json(chat_turns(plain))),
                ),
            )
        },
        Err(_) => contents_of(messages, arguments),
    }
}

/// A tool as a request declares it.
pub open spec fn declaration(tool: ToolDefinitionView) -> JsonView {
    object3(
        "name"@,
        JsonView::Text(tool.name),
        "description"@,
        JsonView::Text(tool.description),
        "parametersJsonSchema"@,
        tool.parameters,
    )
}

/// The tools of a request.
pub open spec fn declarations(tools: Seq<ToolDefinitionView>) -> JsonView {
    JsonView::Array(
        seq![
            object1(
                "functionDeclarations"@,
                JsonView::Array(Seq::new(tools.len(), |i: int| declaration(tools[i]))),
            ),
        ],
    )
}

/// A chat request with the given instructions and contents.
pub open spec fn request_with(
    system: Option<JsonView>,
    contents: JsonView,
    tools: Seq<ToolDefinitionView>,
    max_tokens: Option<i32>,
) -> JsonView {
    let fields = with_field(
        Seq::empty().push(("contents"@, contents)),
        "systemInstruction"@,
        system,
    );
    let limited = with_field(
        fields,
        "generationConfig"@,
        match token_limit(max_tokens) {
            Some(n) => Some(object1("maxOutputTokens"@, n)),
            None => None,
        },
    );
    if tools.len() == 0 {
        JsonView::Object(limited)
    } else {
        JsonView::Object(
            limited.push(("tools"@, declarations(tools))).push(
                (
                    "toolConfig"@,
                    object1(
                        "functionCallingConfig"@,
                        object1("mode"@, JsonView::Text("AUTO"@)),
                    ),
                ),
            ),
        )
    }
}

/// A chat request.
pub open spec fn request_of(
    messages: Seq<MessageView>,
    arguments: Seq<Seq<Option<JsonView>>>,
    tools: Seq<ToolDefinitionView>,
    max_tokens: Option<i32>,
) -> Result<JsonView, HistoryErrorView> {
    match request_contents(messages, arguments) {
        Ok((system, contents)) => Ok(request_with(system, contents, tools, max_tokens)),
        Err(e) => Err(e),
    }
}

fn has_reasoning(messages: &Vec<ToolChatMessage>) -> (r: bool)
    ensures
        r == any_reasoning(messages_view(messages@)),
{
    let ghost all = messages_view(messages@);
    let mut i: usize = 0;
    while i < messages.len()
        invariant
            i <= messages@.len(),
            all == messages_view(messages@),
            forall|j: int| 0 <= j < i ==> !carries_reasoning(#[trigger] all[j]),
        decreases messages@.len() - i,
    {
        let found = match &messages[i] {
            ToolChatMessage::Assistant { reasoning, .. } => reasoning.is_some(),
            _ => false,
        };
        assert(found == carries_reasoning(all[i as int]));
        if found {
            return true;
        }
        i += 1;
    }
    false
}

fn declarations_json(tools: &Vec<ToolDefinition>) -> (r: Json)
    ensures
        r@ == declarations(definitions_view(tools@)),
{
    let ghost all = definitions_view(tools@);
    let ghost listed = Seq::new(all.len(), |i: int| declaration(all[i]));
    let mut items = Items::new();
    let mut i: usize = 0;
    while i < tools.len()
        invariant
            i <= tools@.len(),
            all == definitions_view(tools@),
            listed == Seq::new(all.len(), |i: int| declaration(all[i])),
            items@ == listed.take(i as int),
        decreases tools@.len() - i,
    {
        let mut fields = Fields::new();
        fields.put_text("name", tools[i].name);
        fields.put_text("description", tools[i].description);
        fields.put("parametersJsonSchema", tools[i].parameters.copy());
        items.push(fields.done());
        assert(listed.take(i + 1) =~= listed.take(i as int).push(listed[i as int]));
        i += 1;
    }
    assert(listed.take(i as int) =~= listed);
    let mut fields = Fields::new();
    fields.put("functionDeclarations", items.done());
    let mut outer = Items::new();
    outer.push(fields.done());
    outer.done()
}

fn request_json(
    system: Option<Json>,
    contents: Json,
    tools: &Vec<ToolDefinition>,
    max_tokens: Option<i32>,
) -> (r: Json)
    ensures
        r@ == request_with(
            option_json(system),
            contents@,
            definitions_view(tools@),
            max_tokens,
        ),
{
    let mut fields = Fields::new();
    fields.put("contents", contents);
    fields.put_some("systemInstruction", system);
    if let Some(n) = max_tokens {
        let mut generation = Fields::new();
        generation.put("maxOutputTokens", Json::integer(n as i64));
        fields.put("generationConfig", generation.done());
    }
    if tools.len() > 0 {
        fields.put("tools", declarations_json(tools));
        let mut mode = Fields::new();
        mode.put_text("mode", "AUTO");
        let mut calling = Fields::new();
        calling.put("functionCallingConfig", mode.done());
        fields.put("toolConfig", calling.done());
    }
    fields.done()
}

/// A chat request.
pub fn build_request(
    messages: &Vec<ToolChatMessage>,
    tools: &Vec<ToolDefinition>,
    max_tokens: Option<i32>,
) -> (r: Result<Json, HistoryError>)
    ensures
        match r {
            Ok(body) => request_of(
                messages_view(messages@),
                all_arguments(messages_view(messages@)),
                definitions_view(tools@),
                max_tokens,
            ) == Ok::<_, HistoryErrorView>(body@),
            Err(e) => request_of(
                messages_view(messages@),
                all_arguments(messages_view(messages@)),
                definitions_view(tools@),
                max_tokens,
            ) == Err::<JsonView, _>(e@),
        },
{
    if let Ok(plain) = context_messages_without_tools(messages) {
        if !has_reasoning(messages) {
            let (system, contents) = build_gemini_chat_contents(&plain);
            return Ok(
                request_json(
                    instruction_to_json(&system),
                    turns_to_json(&contents),
                    tools,
                    max_tokens,
                ),
            );
        }
    }
    match build_contents(messages) {
        Ok((system, contents)) => Ok(request_json(system, contents, tools, max_tokens)),
        Err(e) => Err(e),
    }
}

/// Why a reply is not accepted.
#[derive(Debug, Clone, Copy, PartialEq, Eq, Structural)]
pub enum ReplyError {
    InvalidJson,
    Reported,
    MissingCandidate,
    Unfinished,
    MissingParts,
    MissingCallName,
    ArgumentsNotObject,
    Empty,
}

/// What an error says of a reply, by what the reply was parsed as.
pub open spec fn reply_error_text(error: ReplyError, parsed: Option<JsonView>) -> Seq<char> {
    let raw = match parsed {
        Some(value) => value,
        None => JsonView::Null,
    };
    match error {
        ReplyError::InvalidJson => "解析 Gemini 响应失败"@,
        ReplyError::Reported => "Gemini 响应错误："@ + json_written(
            match raw.field("error"@) {
                Some(reported) => reported,
                None => JsonView::Null,
            },
        ),
        ReplyError::MissingCandidate => "Gemini 响应缺少候选内容："@ + json_written(raw),
        ReplyError::Unfinished => "Gemini 响应未正常完成："@ + json_written(raw),
        ReplyError::MissingParts => "Gemini 响应缺少 parts"@,
        ReplyError::MissingCallName => "Gemini functionCall 缺少名称"@,
        ReplyError::ArgumentsNotObject => "Gemini functionCall.args 必须是对象"@,
        ReplyError::Empty => "Gemini 响应内容为空"@,
    }
}

impl ReplyError {
    /// What the error says of the text of a reply.
    pub fn message(&self, reply: &str) -> (r: String)
        ensures
            r@ == reply_error_text(*self, json_parsed(reply@)),
    {
        let raw = match parse_json(reply) {
            Some(value) => value,
            None => Json::Null,
        };
        match self {
            ReplyError::InvalidJson => "解析 Gemini 响应失败".to_owned(),
            ReplyError::Reported => {
                let mut r = "Gemini 响应错误：".to_owned();
                match raw.get("error") {
                    Some(reported) => r.push_str(&write_json(reported)),
                    None => r.push_str(&write_json(&Json::Null)),
                }
                r
            },
            ReplyError::MissingCandidate => {
                let mut r = "Gemini 响应缺少候选内容：".to_owned();
                r.push_str(&write_json(&raw));
                r
            },
            ReplyError::Unfinished => {
                let mut r = "Gemini 响应未正常完成：".to_owned();
                r.push_str(&write_json(&raw));
                r
            },
            ReplyError::MissingParts => "Gemini 响应缺少 parts".to_owned(),
            ReplyError::MissingCallName => "Gemini functionCall 缺少名称".to_owned(),
            ReplyError::ArgumentsNotObject => "Gemini functionCall.args 必须是对象".to_owned(),
            ReplyError::Empty => "Gemini 响应内容为空".to_owned(),
        }
    }
}

/// What stands at `/candidates/0`.
pub open spec fn candidate_at_zero(raw: JsonView) -> Option<JsonView> {
    match raw.field("candidates"@) {
        Some(JsonView::Array(items)) => if items.len() > 0 {
            Some(items[0])
        } else {
            None
        },
        Some(found) => found.field("0"@),
        None => None,
    }
}

/// Why a reply is refused before its content is read: only a reply that ended regularly counts.
pub open spec fn refusal(raw: JsonView) -> Option<ReplyError> {
    if raw.field("error"@) is Some {
        Some(ReplyError::Reported)
    } else {
        match candidate_at_zero(raw) {
            None => Some(ReplyError::MissingCandidate),
            Some(candidate) => if candidate.text_field("finishReason"@) == Some("STOP"@) {
                None
            } else {
                Some(ReplyError::Unfinished)
            },
        }
    }
}

/// Checks that a reply ended regularly.
pub fn validate_response(raw: &Json) -> (r: Result<(), ReplyError>)
    ensures
        match r {
            Ok(_) => refusal(raw@) is None,
            Err(e) => refusal(raw@) == Some(e),
        },
{
    if raw.get("error").is_some() {
        return Err(ReplyError::Reported);
    }
    let candidate = match raw.get("candidates") {
        None => {
            return Err(ReplyError::MissingCandidate);
        },
        Some(found) => match found.as_array() {
            Some(items) => {
                if items.len() == 0 {
                    return Err(ReplyError::MissingCandidate);
                }
                assert(items_view(items@)[0] == items@[0]@);
                &items[0]
            },
            None => match found.get("0") {
                Some(candidate) => candidate,
                None => {
                    return Err(ReplyError::MissingCandidate);
                },
            },
        },
    };
    let reason = candidate.text_at("finishReason");
    if is_text(&reason, "STOP") {
        Ok(())
    } else {
        Err(ReplyError::Unfinished)
    }
}

/// The first candidate of a reply; null where there is none.
pub open spec fn first_candidate(raw: JsonView) -> JsonView {
    match raw.array_field("candidates"@) {
        Some(items) => if items.len() > 0 {
            items[0]
        } else {
            JsonView::Null
        },
        None => JsonView::Null,
    }
}

/// What the pieces of a reply hold.
pub struct PiecesView {
    pub answer: Seq<char>,
    pub thoughts: Seq<char>,
    pub calls: Seq<ToolCallView>,
}

/// The call in a piece, as the call number `n` of the reply.
pub open spec fn piece_call(function: JsonView, request_id: Seq<char>, n: nat) -> Result<
    ToolCallView,
    ReplyError,
> {
    match function.text_field("name"@) {
        None => Err(ReplyError::MissingCallName),
        Some(name) => if name.len() == 0 {
            Err(ReplyError::MissingCallName)
        } else {
            let args = match function.field("args"@) {
                Some(args) => args,
                None => JsonView::Object(Seq::empty()),
            };
            if args is Object {
                Ok(
                    ToolCallView {
                        id: request_id + "_"@ + decimal_of(n),
                        name,
                        arguments: json_written(args),
                    },
                )
            } else {
                Err(ReplyError::ArgumentsNotObject)
            }
        },
    }
}

/// What one more piece adds: its text to the thoughts or to the answer, and its call.
pub open spec fn with_piece(front: PiecesView, part: JsonView, request_id: Seq<char>) -> Result<
    PiecesView,
    ReplyError,
> {
    let thought = part.field("thought"@) == Some(JsonView::Bool(true));
    let read = match part.text_field("text"@) {
        Some(text) => if thought {
            PiecesView {
                answer: front.answer,
                thoughts: front.thoughts + text,
                calls: front.calls,
            }
        } else {
            PiecesView {
                answer: front.answer + text,
                thoughts: front.thoughts,
                calls: front.calls,
            }
        },
        None => front,
    };
    match part.field("functionCall"@) {
        None => Ok(read),
        Some(function) => match piece_call(function, request_id, front.calls.len()) {
            Ok(call) => Ok(
                PiecesView {
                    answer: read.answer,
                    thoughts: read.thoughts,
                    calls: read.calls.push(call),
                },
            ),
            Err(e) => Err(e),
        },
    }
}

/// What the pieces of a reply hold; the first call that lacks something decides the error.
pub open spec fn pieces_of(parts: Seq<JsonView>, request_id: Seq<char>) -> Result<
    PiecesView,
    ReplyError,
>
    decreases parts.len(),
{
    if parts.len() == 0 {
        Ok(
            PiecesView {
                answer: Seq::empty(),
                thoughts: Seq::empty(),
                calls: Seq::empty(),
            },
        )
    } else {
        match pieces_of(parts.drop_last(), request_id) {
            Err(e) => Err(e),
            Ok(front) => with_piece(front, parts.last(), request_id),
        }
    }
}

/// An error in the front part is the error of the whole.
proof fn lemma_pieces_error(parts: Seq<JsonView>, request_id: Seq<char>, n: int)
    requires
        0 <= n <= parts.len(),
        pieces_of(parts.take(n), request_id) is Err,
    ensures
        pieces_of(parts, request_id) == pieces_of(parts.take(n), request_id),
    decreases parts.len() - n,
{
    if n < parts.len() {
        assert(parts.take(n + 1).drop_last() =~= parts.take(n));
        lemma_pieces_error(parts, request_id, n + 1);
    } else {
        assert(parts.take(n) =~= parts);
    }
}

/// The token counts of a reply.
pub open spec fn usage_of(raw: JsonView) -> Option<ChatUsage> {
    match raw.field("usageMetadata"@) {
        Some(usage) => Some(
            ChatUsage {
                prompt_tokens: usage.unsigned_field("promptTokenCount"@),
                completion_tokens: usage.unsigned_field("candidatesTokenCount"@),
                total_tokens: usage.unsigned_field("totalTokenCount"@),
            },
        ),
        None => None,
    }
}

/// A text, where it is more than white space.
pub open spec fn unless_blank(text: Seq<char>) -> Option<Seq<char>> {
    if is_blank(text) {
        None
    } else {
        Some(text)
    }
}

/// What a reply is read as. The calls get ids that begin with `request_id`.
pub open spec fn reply_of(raw: JsonView, model: Seq<char>, request_id: Seq<char>) -> Result<
    ResponseView,
    ReplyError,
> {
    match refusal(raw) {
        Some(e) => Err(e),
        None => {
            let candidate = first_candidate(raw);
            let content = match candidate.field("content"@) {
                Some(content) => content,
                None => JsonView::Null,
            };
            match content.array_field("parts"@) {
                None => Err(ReplyError::MissingParts),
                Some(parts) => match pieces_of(parts, request_id) {
                    Err(e) => Err(e),
                    Ok(pieces) => if is_blank(pieces.answer) && pieces.calls.len() == 0 {
                        Err(ReplyError::Empty)
                    } else {
                        Ok(
                            ResponseView {
                                content: unless_blank(pieces.answer),
                                reasoning: ReasoningStateView {
                                    display_text: unless_blank(pieces.thoughts),
                                    replay: Some(
                                        ReasoningView::Structured(
                                            object2(
                                                "provider"@,
                                                JsonView::Text("gemini"@),
                                                "content"@,
                                                content,
                                            ),
                                        ),
                                    ),
                                },
                                tool_calls: pieces.calls,
                                finish_reason: Some("STOP"@),
                                id: raw.text_field("responseId"@),
                                model: Some(
                                    match raw.text_field("modelVersion"@) {
                                        Some(version) => version,
                                        None => model,
                                    },
                                ),
                                usage: usage_of(raw),
                                raw_response: raw,
                            },
                        )
                    },
                },
            }
        },
    }
}

/// The call in a piece, as the call number `n` of the reply.
fn read_piece_call(function: &Json, request_id: &str, n: usize) -> (r: Result<
    ToolCall,
    ReplyError,
>)
    ensures
        match r {
            Ok(call) => piece_call(function@, request_id@, n as nat) == Ok::<_, ReplyError>(call@),
            Err(e) => piece_call(function@, request_id@, n as nat) == Err::<ToolCallView, _>(e),
        },
{
    let name = match function.text_at("name") {
        None => {
            return Err(ReplyError::MissingCallName);
        },
        Some(name) => name,
    };
    if name.is_empty() {
        return Err(ReplyError::MissingCallName);
    }
    let args = match function.get("args") {
        Some(args) => args.copy(),
        None => Fields::new().done(),
    };
    match args {
        Json::Object(_) => {},
        _ => {
            return Err(ReplyError::ArgumentsNotObject);
        },
    }
    let mut id = request_id.to_owned();
    id.push_str("_");
    id.push_str(&decimal(n as u64));
    Ok(ToolCall { id, name, arguments: write_json(&args) })
}

/// What a reply is read as. The calls get ids that begin with `request_id`.
pub fn read_reply(raw: Json, model: &str, request_id: &str) -> (r: Result<
    ToolChatResponse,
    ReplyError,
>)
    ensures
        match r {
            Ok(reply) => reply_of(raw@, model@, request_id@) == Ok::<_, ReplyError>(reply@),
            Err(e) => reply_of(raw@, model@, request_id@) == Err::<ResponseView, _>(e),
        },
{
    if let Err(e) = validate_response(&raw) {
        return Err(e);
    }
    let items = match raw.array_at("candidates") {
        Some(items) => items,
        None => {
            return Err(ReplyError::MissingParts);
        },
    };
    if items.len() == 0 {
        return Err(ReplyError::MissingParts);
    }
    let candidate = &items[0];
    assert(first_candidate(raw@) == candidate@);
    let content = match candidate.get("content") {
        Some(content) => content,
        None => {
            return Err(ReplyError::MissingParts);
        },
    };
    let parts = match content.array_at("parts") {
        Some(parts) => parts,
        None => {
            return Err(ReplyError::MissingParts);
        },
    };
    let ghost all = items_view(parts@);
    let mut answer = String::new();
    let mut thoughts = String::new();
    let mut calls: Vec<ToolCall> = Vec::new();
    assert(calls_view(calls@) =~= Seq::empty());
    let mut i: usize = 0;
    while i < parts.len()
        invariant
            i <= parts@.len(),
            all == items_view(parts@),
            refusal(raw@) is None,
            first_candidate(raw@) == candidate@,
            candidate@.field("content"@) == Some(content@),
            content@.array_field("parts"@) == Some(all),
            pieces_of(all.take(i as int), request_id@) == Ok::<_, ReplyError>(
                PiecesView {
                    answer: answer@,
                    thoughts: thoughts@,
                    calls: calls_view(calls@),
                },
            ),
        decreases parts@.len() - i,
    {
        let part = &parts[i];
        proof {
            assert(all.take(i + 1).drop_last() =~= all.take(i as int));
            assert(all.take(i + 1).last() == part@);
        }
        if let Some(text) = part.text_at("text") {
            let thought = match part.get("thought") {
                Some(Json::Bool(thought)) => *thought,
                _ => false,
            };
            if thought {
                thoughts.push_str(&text);
            } else {
                answer.push_str(&text);
            }
        }
        if let Some(function) = part.get("functionCall") {
            match read_piece_call(function, request_id, calls.len()) {
                Ok(call) => {
                    let ghost before = calls_view(calls@);
                    calls.push(call);
                    assert(calls_view(calls@) =~= before.push(call@));
                },
                Err(e) => {
                    proof {
                        lemma_pieces_error(all, request_id@, i + 1);
                    }
                    return Err(e);
                },
            }
        }
        i += 1;
    }
    assert(all.take(i as int) =~= all);
    if blank(&answer) && calls.len() == 0 {
        return Err(ReplyError::Empty);
    }
    let usage = match raw.get("usageMetadata") {
        Some(usage) => Some(
            ChatUsage {
                prompt_tokens: usage.unsigned_at("promptTokenCount"),
                completion_tokens: usage.unsigned_at("candidatesTokenCount"),
                total_tokens: usage.unsigned_at("totalTokenCount"),
            },
        ),
        None => None,
    };
    let mut payload = Fields::new();
    payload.put_text("provider", "gemini");
    payload.put("content", content.copy());
    let replay = Some(ReasoningPayload::Structured(payload.done()));
    let content_text = if blank(&answer) {
        None
    } else {
        Some(answer)
    };
    let display_text = if blank(&thoughts) {
        None
    } else {
        Some(thoughts)
    };
    let id = raw.text_at("responseId");
    let version = match raw.text_at("modelVersion") {
        Some(version) => version,
        None => model.to_owned(),
    };
    Ok(
        ToolChatResponse {
            content: content_text,
            reasoning: ReasoningState { display_text, replay },
            tool_calls: calls,
            finish_reason: Some("STOP".to_owned()),
            id,
            model: Some(version),
            usage,
            raw_response: raw,
        },
    )
}

/// Whether a character is a digit of a hexadecimal number, written small.
pub open spec fn is_hex_digit(c: char) -> bool {
    ('0' <= c <= '9') || ('a' <= c <= 'f')
}

/// Whether a text is a word for the ids of the calls of a reply.
pub open spec fn is_request_id(id: Seq<char>) -> bool {
    &&& id.len() == 39
    &&& begins_with(id, "gemini_"@)
    &&& forall|i: int| 7 <= i < 39 ==> is_hex_digit(#[trigger] id[i])
}

/// `rand::random` for a `u128`, written in hexadecimal with leading zeros. Claimed is that these are
/// so many digits; which ones rests on chance.
#[verifier::external_body]
fn random_hex() -> (digits: String)
    ensures
        digits@.len() == 32,
        forall|i: int| 0 <= i < 32 ==> is_hex_digit(#[trigger] digits@[i]),
{
    format!("{:032x}", rand::random::<u128>())
}

/// A fresh word for the ids of the calls of a reply.
fn random_request_id() -> (id: String)
    ensures
        is_request_id(id@),
{
    proof {
        reveal_strlit("gemini_");
    }
    let mut id = "gemini_".to_owned();
    let digits = random_hex();
    id.push_str(&digits);
    assert(id@.take("gemini_"@.len() as int) =~= "gemini_"@);
    assert forall|i: int| 7 <= i < 39 implies is_hex_digit(#[trigger] id@[i]) by {
        assert(id@[i] == digits@[i - 7]);
    }
    id
}

/// Checks that the text of a reply ended regularly.
pub fn check_reply_text(text: &str) -> (r: Result<(), ReplyError>)
    ensures
        match json_parsed(text@) {
            None => r == Err::<(), ReplyError>(ReplyError::InvalidJson),
            Some(raw) => match refusal(raw) {
                Some(e) => r == Err::<(), ReplyError>(e),
                None => r is Ok,
            },
        },
{
    match parse_json(text) {
        None => Err(ReplyError::InvalidJson),
        Some(raw) => validate_response(&raw),
    }
}

/// What the text of a reply is read as. The ids of its calls begin with a fresh random word.
pub fn parse_response(text: &str, model: &str) -> (r: Result<ToolChatResponse, ReplyError>)
    ensures
        match json_parsed(text@) {
            None => r == Err::<ToolChatResponse, _>(ReplyError::InvalidJson),
            Some(raw) => exists|request_id: Seq<char>|
                #![trigger reply_of(raw, model@, request_id)]
                is_request_id(request_id) && match r {
                    Ok(reply) => reply_of(raw, model@, request_id) == Ok::<_, ReplyError>(reply@),
                    Err(e) => reply_of(raw, model@, request_id) == Err::<ResponseView, _>(e),
                },
        },
{
    match parse_json(text) {
        None => Err(ReplyError::InvalidJson),
        Some(raw) => {
            let request_id = random_request_id();
            read_reply(raw, model, &request_id)
        },
    }
}

/// The ids of the calls of a reply begin with the request id.
proof fn lemma_call_ids(parts: Seq<JsonView>, request_id: Seq<char>)
    ensures
        pieces_of(parts, request_id) matches Ok(p) ==> forall|i: int|
            0 <= i < p.calls.len() ==> (#[trigger] p.calls[i]).id == request_id + "_"@ + decimal_of(
                i as nat,
            ),
    decreases parts.len(),
{
    if parts.len() > 0 {
        lemma_call_ids(parts.drop_last(), request_id);
    }
}

/// The calls of an accepted reply have distinct ids.
pub proof fn law_call_ids_are_distinct(
    raw: JsonView,
    model: Seq<char>,
    request_id: Seq<char>,
    reply: ResponseView,
    i: int,
    j: int,
)
    requires
        reply_of(raw, model, request_id) == Ok::<_, ReplyError>(reply),
        0 <= i < j < reply.tool_calls.len(),
    ensures
        reply.tool_calls[i].id != reply.tool_calls[j].id,
{
    let content = first_candidate(raw).field("content"@).unwrap();
    let parts = content.array_field("parts"@).unwrap();
    lemma_call_ids(parts, request_id);
    let front = request_id + "_"@;
    let a = reply.tool_calls[i].id;
    let b = reply.tool_calls[j].id;
    assert(a.skip(front.len() as int) =~= decimal_of(i as nat));
    assert(b.skip(front.len() as int) =~= decimal_of(j as nat));
    if a == b {
        lemma_decimal_injective(i as nat, j as nat);
    }
}

/// Only a reply that ended regularly is accepted.
pub proof fn law_only_finished_replies(raw: JsonView, model: Seq<char>, request_id: Seq<char>)
    requires
        reply_of(raw, model, request_id) is Ok,
    ensures
        raw.field("error"@) is None,
        first_candidate(raw).text_field("finishReason"@) == Some("STOP"@),
{
}

/// The calls among the pieces of a reply are its tool calls, name by name.
proof fn lemma_calls_match(parts: Seq<JsonView>, request_id: Seq<char>)
    ensures
        pieces_of(parts, request_id) matches Ok(p) ==> calls_among(parts).len() == p.calls.len()
            && forall|i: int|
            0 <= i < p.calls.len() ==> calls_among(parts)[i].text_field("name"@) == Some(
                (#[trigger] p.calls[i]).name,
            ),
    decreases parts.len(),
{
    if parts.len() > 0 {
        lemma_calls_match(parts.drop_last(), request_id);
    }
}

/// Calls of a kept reply add no pieces: they only wait for their results.
proof fn lemma_kept_calls(
    start: CallsView,
    calls: Seq<ToolCallView>,
    kept: Seq<JsonView>,
    arguments: Seq<Option<JsonView>>,
    n: nat,
)
    requires
        n <= calls.len(),
    ensures
        with_calls(start, calls, Some(kept), arguments, n) matches Ok(done) ==> done.parts
            == start.parts,
    decreases n,
{
    if n > 0 {
        lemma_kept_calls(start, calls, kept, arguments, (n - 1) as nat);
    }
}

/// No call with an id is found in a list that holds none, nor behind others with another id.
proof fn lemma_lookup_push(
    pending: Seq<(Seq<char>, JsonView)>,
    entry: (Seq<char>, JsonView),
    id: Seq<char>,
)
    requires
        lookup(pending, id) is None,
        entry.0 != id,
    ensures
        lookup(pending.push(entry), id) is None,
    decreases pending.len(),
{
    if pending.len() == 0 {
        assert(pending.push(entry).drop_first() =~= Seq::empty());
        assert(lookup(Seq::empty(), id) is None);
        assert(pending.push(entry)[0] == entry);
    } else {
        assert(pending.push(entry).drop_first() =~= pending.drop_first().push(entry));
        lemma_lookup_push(pending.drop_first(), entry, id);
    }
}

/// The calls of a kept reply wait for their results one by one.
proof fn lemma_kept_calls_wait(
    start: CallsView,
    calls: Seq<ToolCallView>,
    kept: Seq<JsonView>,
    arguments: Seq<Option<JsonView>>,
    n: nat,
)
    requires
        n <= calls.len(),
        kept.len() == calls.len(),
        arguments.len() == calls.len(),
        forall|i: int|
            0 <= i < calls.len() ==> kept[i].text_field("name"@) == Some(
                (#[trigger] calls[i]).name,
            ),
        forall|i: int|
            0 <= i < calls.len() ==> (#[trigger] arguments[i] matches Some(a) && a is Object),
        forall|i: int, j: int|
            0 <= i < j < calls.len() ==> (#[trigger] calls[i]).id != (#[trigger] calls[j]).id,
        forall|i: int|
            0 <= i < calls.len() ==> lookup(start.pending, (#[trigger] calls[i]).id) is None,
    ensures
        with_calls(start, calls, Some(kept), arguments, n) matches Ok(done) && forall|i: int|
            n <= i < calls.len() ==> lookup(done.pending, (#[trigger] calls[i]).id) is None,
    decreases n,
{
    if n > 0 {
        let m = (n - 1) as nat;
        lemma_kept_calls_wait(start, calls, kept, arguments, m);
        let front = with_calls(start, calls, Some(kept), arguments, m)->Ok_0;
        assert(arguments[m as int] is Some);
        assert(kept[m as int].text_field("name"@) == Some(calls[m as int].name));
        assert forall|i: int| n <= i < calls.len() implies lookup(
            front.pending.push((calls[m as int].id, kept[m as int])),
            (#[trigger] calls[i]).id,
        ) is None by {
            lemma_lookup_push(front.pending, (calls[m as int].id, kept[m as int]), calls[i].id);
        }
    }
}

/// An accepted reply can always be sent back, as long as its arguments are read back as objects
/// and no earlier call with the same id waits for its result.
pub proof fn law_reply_can_be_sent_back(
    raw: JsonView,
    model: Seq<char>,
    request_id: Seq<char>,
    reply: ResponseView,
    history: HistoryView,
    arguments: Seq<Option<JsonView>>,
)
    requires
        reply_of(raw, model, request_id) == Ok::<_, ReplyError>(reply),
        arguments.len() == reply.tool_calls.len(),
        forall|i: int|
            0 <= i < arguments.len() ==> (#[trigger] arguments[i] matches Some(a) && a is Object),
        forall|i: int|
            0 <= i < reply.tool_calls.len() ==> lookup(
                history.pending,
                (#[trigger] reply.tool_calls[i]).id,
            ) is None,
    ensures
        with_message(history, reply.as_message(), arguments) is Ok,
{
    let content = first_candidate(raw).field("content"@).unwrap();
    let parts = content.array_field("parts"@).unwrap();
    let payload = object2("provider"@, JsonView::Text("gemini"@), "content"@, content);
    reveal_strlit("provider");
    reveal_strlit("content");
    let fields = payload->Object_0;
    assert("provider"@.len() != "content"@.len());
    assert(fields[0].0 == "provider"@);
    assert(fields.drop_first()[0] == ("content"@, content));
    assert(payload.field("content"@) == lookup(fields.drop_first(), "content"@));
    assert(kept_content(reply.as_message()->Assistant_reasoning) == Some(content));
    lemma_calls_match(parts, request_id);
    assert forall|i: int, j: int| 0 <= i < j < reply.tool_calls.len() implies (
    #[trigger] reply.tool_calls[i]).id != (#[trigger] reply.tool_calls[j]).id by {
        law_call_ids_are_distinct(raw, model, request_id, reply, i, j);
    }
    lemma_kept_calls_wait(
        CallsView { parts, pending: history.pending },
        reply.tool_calls,
        calls_among(parts),
        arguments,
        reply.tool_calls.len(),
    );
}

/// An accepted reply goes back with the next request piece by piece as it came, signatures and
/// thoughts included.
pub proof fn law_reply_goes_back_whole(
    raw: JsonView,
    model: Seq<char>,
    request_id: Seq<char>,
    reply: ResponseView,
    history: HistoryView,
    arguments: Seq<Option<JsonView>>,
    after: HistoryView,
)
    requires
        reply_of(raw, model, request_id) == Ok::<_, ReplyError>(reply),
        with_message(history, reply.as_message(), arguments) == Ok::<_, HistoryErrorView>(after),
    ensures
        first_candidate(raw).field("content"@) matches Some(content) && content.array_field(
            "parts"@,
        ) matches Some(parts) && after.turns == with_pieces(history.turns, "model"@, parts),
{
    let content = first_candidate(raw).field("content"@).unwrap();
    let parts = content.array_field("parts"@).unwrap();
    let payload = object2("provider"@, JsonView::Text("gemini"@), "content"@, content);
    reveal_strlit("provider");
    reveal_strlit("content");
    let fields = payload->Object_0;
    assert("provider"@.len() != "content"@.len());
    assert(fields[0].0 == "provider"@);
    assert(fields.drop_first()[0] == ("content"@, content));
    assert(payload.field("content"@) == lookup(fields.drop_first(), "content"@));
    assert(kept_content(reply.as_message()->Assistant_reasoning) == Some(content));
    lemma_kept_calls(
        CallsView { parts, pending: history.pending },
        reply.tool_calls,
        calls_among(parts),
        arguments,
        reply.tool_calls.len(),
    );
}

/// The pieces of turns with who says them, one behind the other.
pub open spec fn pieces_in(turns: Seq<PieceTurn>) -> Seq<(Seq<char>, JsonView)>
    decreases turns.len(),
{
    if turns.len() == 0 {
        Seq::empty()
    } else {
        pieces_in(turns.drop_last()) + Seq::new(
            turns.last().parts.len(),
            |k: int| (turns.last().role, turns.last().parts[k]),
        )
    }
}

/// Pieces with who says them.
pub open spec fn said_by(role: Seq<char>, parts: Seq<JsonView>) -> Seq<(Seq<char>, JsonView)> {
    Seq::new(parts.len(), |k: int| (role, parts[k]))
}

proof fn lemma_with_pieces(turns: Seq<PieceTurn>, role: Seq<char>, parts: Seq<JsonView>)
    ensures
        pieces_in(with_pieces(turns, role, parts)) =~= pieces_in(turns) + said_by(role, parts),
{
    let after = with_pieces(turns, role, parts);
    if parts.len() == 0 {
    } else if turns.len() > 0 && turns.last().role == role {
        assert(after.drop_last() =~= turns.drop_last());
    } else {
        assert(after.drop_last() =~= turns);
    }
}

/// Whether a piece of a request holds a piece of a user message.
pub open spec fn holds_user_piece(piece: JsonView, part: PartView) -> bool {
    match part {
        PartView::Text(text) => piece.text_field("text"@) == Some(text),
        PartView::Image(url) => data_url_parts(url) matches Ok((mime_type, data))
            && piece.nested_text("inlineData"@, "mimeType"@) == Some(mime_type)
            && piece.nested_text("inlineData"@, "data"@) == Some(data),
    }
}

proof fn lemma_user_pieces(parts: Seq<PartView>, pieces: Seq<JsonView>)
    requires
        user_pieces(parts) == Ok::<_, DataUrlError>(pieces),
    ensures
        pieces.len() == parts.len(),
        forall|k: int|
            0 <= k < parts.len() ==> holds_user_piece(pieces[k], #[trigger] parts[k]),
    decreases parts.len(),
{
    if parts.len() > 0 {
        let front = user_pieces(parts.drop_last())->Ok_0;
        lemma_user_pieces(parts.drop_last(), front);
        assert forall|k: int| 0 <= k < parts.len() implies holds_user_piece(
            pieces[k],
            #[trigger] parts[k],
        ) by {
            if k < parts.len() - 1 {
                assert(parts.drop_last()[k] == parts[k]);
            } else {
                lemma_field_at(pieces[k]->Object_0, pieces[k]->Object_0[0].0, 0);
                if let PartView::Image(url) = parts[k] {
                    let (mime_type, data) = data_url_parts(url)->Ok_0;
                    reveal_strlit("mimeType");
                    reveal_strlit("data");
                    assert("mimeType"@.len() == 8 && "data"@.len() == 4);
                    lemma_object2(
                        "mimeType"@,
                        JsonView::Text(mime_type),
                        "data"@,
                        JsonView::Text(data),
                    );
                }
            }
        }
    }
}

/// What somebody says in a history is added to it as it is, piece by piece: every text and every
/// image.
pub proof fn law_what_a_user_says_is_added(
    history: HistoryView,
    content: Seq<PartView>,
    arguments: Seq<Option<JsonView>>,
    after: HistoryView,
)
    requires
        with_message(history, MessageView::User { content }, arguments) == Ok::<
            _,
            HistoryErrorView,
        >(after),
    ensures
        after.system == history.system,
        after.pending == history.pending,
        exists|pieces: Seq<JsonView>|
            pieces_in(after.turns) == pieces_in(history.turns) + #[trigger] said_by("user"@, pieces)
                && pieces.len() == content.len() && forall|k: int|
                0 <= k < content.len() ==> holds_user_piece(pieces[k], #[trigger] content[k]),
{
    let pieces = user_pieces(content)->Ok_0;
    lemma_user_pieces(content, pieces);
    lemma_with_pieces(history.turns, "user"@, pieces);
    assert(pieces_in(after.turns) == pieces_in(history.turns) + said_by("user"@, pieces));
}

/// The result of a tool is added to a history as it is, under the name of the call that it answers
/// and with the id that the call came with; that call waits no more.
pub proof fn law_results_answer_their_calls(
    history: HistoryView,
    tool_call_id: Seq<char>,
    content: Seq<char>,
    arguments: Seq<Option<JsonView>>,
    after: HistoryView,
)
    requires
        with_message(history, MessageView::Tool { tool_call_id, content }, arguments) == Ok::<
            _,
            HistoryErrorView,
        >(after),
    ensures
        after.system == history.system,
        after.pending.len() == history.pending.len() - 1,
        JsonView::Object(history.pending).field(tool_call_id) matches Some(call) && exists|
            piece: JsonView,
        |
            pieces_in(after.turns) == pieces_in(history.turns) + #[trigger] said_by(
                "user"@,
                seq![piece],
            ) && (piece.field("functionResponse"@) matches Some(answer) && {
                &&& answer.nested_text("response"@, "result"@) == Some(content)
                &&& answer.field("name"@) == Some(
                    match call.field("name"@) {
                        Some(name) => name,
                        None => JsonView::Null,
                    },
                )
                &&& answer.field("id"@) == call.field("id"@)
            }),
{
    let call = lookup(history.pending, tool_call_id).unwrap();
    let piece = result_piece(call, content);
    lemma_with_pieces(history.turns, "user"@, seq![piece]);
    lemma_field_at(piece->Object_0, "functionResponse"@, 0);
    let answer = piece.field("functionResponse"@).unwrap();
    reveal_strlit("name");
    reveal_strlit("response");
    reveal_strlit("id");
    assert("name"@.len() == 4 && "response"@.len() == 8 && "id"@.len() == 2);
    let first = Seq::empty().push(
        (
            "name"@,
            match call.field("name"@) {
                Some(name) => name,
                None => JsonView::Null,
            },
        ),
    ).push(("response"@, object1("result"@, JsonView::Text(content))));
    lemma_field_at(first, "name"@, 0);
    lemma_field_at(first, "response"@, 1);
    lemma_no_field(first, "id"@);
    lemma_more_fields(first, "id"@, call.field("id"@), "name"@);
    lemma_more_fields(first, "id"@, call.field("id"@), "response"@);
    lemma_more_fields(first, "id"@, call.field("id"@), "id"@);
    lemma_field_at(object1("result"@, JsonView::Text(content))->Object_0, "result"@, 0);
    lemma_one_call_less(history.pending, tool_call_id);
    assert(pieces_in(after.turns) == pieces_in(history.turns) + said_by("user"@, seq![piece]));
}

proof fn lemma_one_call_less(pending: Seq<(Seq<char>, JsonView)>, id: Seq<char>)
    requires
        lookup(pending, id) is Some,
    ensures
        without_call(pending, id).len() == pending.len() - 1,
    decreases pending.len(),
{
    if pending.len() > 0 && pending[0].0 != id {
        lemma_one_call_less(pending.drop_first(), id);
    }
}

proof fn lemma_fresh_calls(
    start: CallsView,
    calls: Seq<ToolCallView>,
    arguments: Seq<Option<JsonView>>,
    n: nat,
    done: CallsView,
)
    requires
        n <= calls.len(),
        with_calls(start, calls, None, arguments, n) == Ok::<_, HistoryErrorView>(done),
    ensures
        done.parts.len() == start.parts.len() + n,
        done.pending.len() == start.pending.len() + n,
        done.parts.take(start.parts.len() as int) =~= start.parts,
        done.pending.take(start.pending.len() as int) =~= start.pending,
        forall|k: int|
            0 <= k < n ==> {
                &&& done.parts[start.parts.len() + k].nested_text("functionCall"@, "name"@) == Some(
                    (#[trigger] calls[k]).name,
                )
                &&& (done.parts[start.parts.len() + k].field("functionCall"@) matches Some(f)
                    && f.field("args"@) == arguments[k])
                &&& done.pending[start.pending.len() + k].0 == calls[k].id
                &&& done.pending[start.pending.len() + k].1.text_field("name"@) == Some(
                    calls[k].name,
                )
            },
    decreases n,
{
    if n > 0 {
        let m = (n - 1) as nat;
        let front = with_calls(start, calls, None, arguments, m)->Ok_0;
        lemma_fresh_calls(start, calls, arguments, m, front);
        let call = calls[m as int];
        let args = arguments[m as int].unwrap();
        let function = object2("name"@, JsonView::Text(call.name), "args"@, args);
        reveal_strlit("name");
        reveal_strlit("args");
        assert("name"@[0] == 'n' && "args"@[0] == 'a');
        lemma_object2("name"@, JsonView::Text(call.name), "args"@, args);
        lemma_field_at(object1("functionCall"@, function)->Object_0, "functionCall"@, 0);
        assert(done.parts == front.parts.push(object1("functionCall"@, function)));
        assert(done.pending == front.pending.push((call.id, function)));
        assert forall|k: int| 0 <= k < n implies {
            &&& done.parts[start.parts.len() + k].nested_text("functionCall"@, "name"@) == Some(
                (#[trigger] calls[k]).name,
            )
            &&& (done.parts[start.parts.len() + k].field("functionCall"@) matches Some(f)
                && f.field("args"@) == arguments[k])
            &&& done.pending[start.pending.len() + k].0 == calls[k].id
            &&& done.pending[start.pending.len() + k].1.text_field("name"@) == Some(
                calls[k].name,
            )
        } by {
            if k < m {
                assert(done.parts[start.parts.len() + k] == front.parts[start.parts.len() + k]);
                assert(done.pending[start.pending.len() + k] == front.pending[start.pending.len()
                    + k]);
            }
        }
    }
}

/// What the assistant said and called is added to a history as it is: its text, and a call with its
/// name and its arguments for each of its calls, all of which wait for their results. This holds of
/// messages of which no reply of this provider was kept.
pub proof fn law_calls_are_added(
    history: HistoryView,
    content: Option<Seq<char>>,
    reasoning: Option<ReasoningView>,
    tool_calls: Seq<ToolCallView>,
    arguments: Seq<Option<JsonView>>,
    after: HistoryView,
)
    requires
        with_message(
            history,
            MessageView::Assistant { content, reasoning, tool_calls },
            arguments,
        ) == Ok::<_, HistoryErrorView>(after),
        !(reasoning matches Some(ReasoningView::Structured(payload)) && payload.text_field(
            "provider"@,
        ) == Some("gemini"@)),
    ensures
        after.system == history.system,
        after.pending.len() == history.pending.len() + tool_calls.len(),
        ({
            let head: int = if content is Some {
                1
            } else {
                0
            };
            exists|pieces: Seq<JsonView>|
                pieces_in(after.turns) == pieces_in(history.turns) + #[trigger] said_by(
                    "model"@,
                    pieces,
                ) && pieces.len() == head + tool_calls.len() && (content matches Some(text)
                    ==> pieces[0].text_field("text"@) == Some(text)) && forall|k: int|
                    0 <= k < tool_calls.len() ==> {
                        &&& pieces[head + k].nested_text("functionCall"@, "name"@) == Some(
                            (#[trigger] tool_calls[k]).name,
                        )
                        &&& (pieces[head + k].field("functionCall"@) matches Some(f) && f.field(
                            "args"@,
                        ) == arguments[k])
                        &&& after.pending[history.pending.len() + k].0 == tool_calls[k].id
                    }
        }),
{
    assert(kept_content(reasoning) is None);
    let parts = assistant_pieces(content, None)->Ok_0;
    let start = CallsView { parts, pending: history.pending };
    let done = with_calls(start, tool_calls, None, arguments, tool_calls.len())->Ok_0;
    lemma_fresh_calls(start, tool_calls, arguments, tool_calls.len(), done);
    lemma_with_pieces(history.turns, "model"@, done.parts);
    if let Some(text) = content {
        lemma_field_at(text_part(text)->Object_0, "text"@, 0);
        assert(done.parts.take(1)[0] == done.parts[0]);
    }
    assert(pieces_in(after.turns) == pieces_in(history.turns) + said_by("model"@, done.parts));
}

/// What is sent of turns names the speaker of each and holds its pieces in order.
pub proof fn law_pieces_are_sent_whole(turns: Seq<PieceTurn>)
    ensures
        piece_turns_json(turns) matches JsonView::Array(items) && items.len() == turns.len()
            && forall|i: int|
            0 <= i < turns.len() ==> items[i].text_field("role"@) == Some((#[trigger] turns[i]).role)
                && items[i].array_field("parts"@) == Some(turns[i].parts),
{
    reveal_strlit("role");
    reveal_strlit("parts");
    assert("role"@.len() == 4 && "parts"@.len() == 5);
    let items = piece_turns_json(turns)->Array_0;
    assert forall|i: int| 0 <= i < turns.len() implies items[i].text_field("role"@) == Some(
        (#[trigger] turns[i]).role,
    ) && items[i].array_field("parts"@) == Some(turns[i].parts) by {
        lemma_object2(
            "role"@,
            JsonView::Text(turns[i].role),
            "parts"@,
            JsonView::Array(turns[i].parts),
        );
    }
}

/// A request holds the instructions and the contents as they are, and declares every tool with its
/// name, its description and its parameters; without tools it says nothing of them.
pub proof fn law_request_holds_its_parts(
    system: Option<JsonView>,
    contents: JsonView,
    tools: Seq<ToolDefinitionView>,
    max_tokens: Option<i32>,
)
    ensures
        ({
            let request = request_with(system, contents, tools, max_tokens);
            &&& request.field("contents"@) == Some(contents)
            &&& request.field("systemInstruction"@) == system
            &&& tools.len() == 0 ==> request.field("tools"@) is None
            &&& tools.len() > 0 ==> (request.array_field("tools"@) matches Some(listed)
                && listed.len() == 1 && (listed[0].array_field(
                "functionDeclarations"@,
            ) matches Some(items) && items.len() == tools.len() && forall|k: int|
                0 <= k < tools.len() ==> {
                    &&& items[k].text_field("name"@) == Some((#[trigger] tools[k]).name)
                    &&& items[k].text_field("description"@) == Some(tools[k].description)
                    &&& items[k].field("parametersJsonSchema"@) == Some(tools[k].parameters)
                }))
        }),
{
    reveal_strlit("contents");
    reveal_strlit("systemInstruction");
    reveal_strlit("generationConfig");
    reveal_strlit("tools");
    reveal_strlit("toolConfig");
    assert("contents"@.len() == 8 && "systemInstruction"@.len() == 17);
    assert("generationConfig"@.len() == 16 && "tools"@.len() == 5 && "toolConfig"@.len() == 10);
    let request = request_with(system, contents, tools, max_tokens);
    let first = Seq::empty().push(("contents"@, contents));
    let limit = match token_limit(max_tokens) {
        Some(n) => Some(object1("maxOutputTokens"@, n)),
        None => None,
    };
    let second = with_field(first, "systemInstruction"@, system);
    let third = with_field(second, "generationConfig"@, limit);
    lemma_field_at(first, "contents"@, 0);
    lemma_no_field(first, "systemInstruction"@);
    lemma_no_field(first, "tools"@);
    lemma_more_fields(first, "systemInstruction"@, system, "contents"@);
    lemma_more_fields(first, "systemInstruction"@, system, "systemInstruction"@);
    lemma_more_fields(first, "systemInstruction"@, system, "tools"@);
    lemma_more_fields(second, "generationConfig"@, limit, "contents"@);
    lemma_more_fields(second, "generationConfig"@, limit, "systemInstruction"@);
    lemma_more_fields(second, "generationConfig"@, limit, "tools"@);
    if tools.len() > 0 {
        let mode = object1("functionCallingConfig"@, object1("mode"@, JsonView::Text("AUTO"@)));
        let declared = Some(declarations(tools));
        let fourth = with_field(third, "tools"@, declared);
        lemma_more_fields(third, "tools"@, declared, "contents"@);
        lemma_more_fields(third, "tools"@, declared, "systemInstruction"@);
        lemma_more_fields(third, "tools"@, declared, "tools"@);
        lemma_more_fields(fourth, "toolConfig"@, Some(mode), "contents"@);
        lemma_more_fields(fourth, "toolConfig"@, Some(mode), "systemInstruction"@);
        lemma_more_fields(fourth, "toolConfig"@, Some(mode), "tools"@);
        assert(request == JsonView::Object(with_field(fourth, "toolConfig"@, Some(mode))));
        let listed = request.array_field("tools"@).unwrap();
        lemma_field_at(listed[0]->Object_0, "functionDeclarations"@, 0);
        let items = listed[0].array_field("functionDeclarations"@).unwrap();
        reveal_strlit("name");
        reveal_strlit("description");
        reveal_strlit("parametersJsonSchema");
        assert("name"@.len() == 4 && "description"@.len() == 11);
        assert("parametersJsonSchema"@.len() == 20);
        assert forall|k: int| 0 <= k < tools.len() implies {
            &&& items[k].text_field("name"@) == Some((#[trigger] tools[k]).name)
            &&& items[k].text_field("description"@) == Some(tools[k].description)
            &&& items[k].field("parametersJsonSchema"@) == Some(tools[k].parameters)
        } by {
            lemma_object3(
                "name"@,
                JsonView::Text(tools[k].name),
                "description"@,
                JsonView::Text(tools[k].description),
                "parametersJsonSchema"@,
                tools[k].parameters,
            );
        }
    }
}

/// What is read of the pieces of a reply is what they say: each text that is no thought is added to
/// the answer, each thought to the thoughts, and each call is read with its name and its arguments.
pub proof fn law_every_piece_is_read(
    parts: Seq<JsonView>,
    part: JsonView,
    request_id: Seq<char>,
    before: PiecesView,
    after: PiecesView,
)
    requires
        pieces_of(parts, request_id) == Ok::<_, ReplyError>(before),
        pieces_of(parts.push(part), request_id) == Ok::<_, ReplyError>(after),
    ensures
        ({
            let thought = part.field("thought"@) == Some(JsonView::Bool(true));
            let text = match part.text_field("text"@) {
                Some(t) => t,
                None => Seq::empty(),
            };
            &&& after.answer == before.answer + if thought {
                Seq::empty()
            } else {
                text
            }
            &&& after.thoughts == before.thoughts + if thought {
                text
            } else {
                Seq::empty()
            }
            &&& match part.field("functionCall"@) {
                None => after.calls == before.calls,
                Some(function) => after.calls.len() == before.calls.len() + 1
                    && after.calls.drop_last() == before.calls && Some(after.calls.last().name)
                    == function.text_field("name"@) && (function.field("args"@) matches Some(args)
                    ==> after.calls.last().arguments == json_written(args)),
            }
        }),
{
    assert(parts.push(part).drop_last() =~= parts);
    assert(before.answer + Seq::<char>::empty() =~= before.answer);
    assert(before.thoughts + Seq::<char>::empty() =~= before.thoughts);
    if part.field("functionCall"@) is Some {
        assert(after.calls.drop_last() =~= before.calls);
    }
}

} // verus!
