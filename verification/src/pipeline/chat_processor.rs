//! The context of a request, and the loop of requests and tool calls that answers a conversation.

use vstd::prelude::*;

use crate::ai_provider::{
    messages_view, push_message, with_text, MessageView, PartView, ToolChatMessage,
    ToolChatUserContent,
};
use crate::config::{law_names_get_their_own_values, rendered_template, values_fit};
use crate::conversation_context::{
    histories_view, rounds_messages, ActiveToolHistory, HistoryView, RuntimeContextState, StateView,
};
use crate::id_set::IdSet;
use crate::json::{
    is_text, items_view, json_parsed, option_json, option_text, parse_json, Json, JsonView,
};
use crate::local_time::{
    date_text, local_time, minute_text, showable, shown_at, LocalTime,
};
use crate::repository::db_manager::ChatMessage;
use crate::text::{
    blank, chars_of, contains_text, decimal, decimal_of, has_text, is_blank, lemma_occurs_behind,
    lemma_occurs_in_front, lemma_one_mark, mark, no_braces, no_opening, occurs_at, replace,
    replace_of, same_text, texts,
};
use crate::tools::{calls_view, ToolCall, ToolResult};

verus! {

/// A stored message with what is needed to show it: the date and the time of day as texts, and the
/// images that go with it.
#[derive(Debug, PartialEq, Eq)]
pub struct HistoryEntry {
    pub message: ChatMessage,
    pub date: String,
    pub time: String,
    pub images: Vec<String>,
}

/// What a text that may be absent holds.
pub open spec fn text_or_empty(text: Option<String>) -> Seq<char> {
    match text {
        Some(t) => t@,
        None => Seq::empty(),
    }
}

fn copy_text_or_empty(text: &Option<String>) -> (r: String)
    ensures
        r@ == text_or_empty(*text),
{
    match text {
        Some(t) => t.clone(),
        None => String::new(),
    }
}

/// The name under which the sender of a message is shown.
pub open spec fn shown_name(message: ChatMessage) -> Seq<char> {
    match message.sender_nickname {
        Some(name) => name@,
        None => message.sender_display_name@,
    }
}

/// A message as a line of the history.
pub open spec fn history_line(message: ChatMessage, time: Seq<char>) -> Seq<char> {
    shown_name(message) + "（"@ + time + "）:"@ + text_or_empty(message.content_text)
}

/// A message as a line of the history.
pub fn history_message_line(message: &ChatMessage, time_text: &str) -> (r: String)
    ensures
        r@ == history_line(*message, time_text@),
{
    let mut r = match &message.sender_nickname {
        Some(name) => name.clone(),
        None => message.sender_display_name.clone(),
    };
    r.push_str("（");
    r.push_str(time_text);
    r.push_str("）:");
    r.push_str(&copy_text_or_empty(&message.content_text));
    r
}

/// Pieces with images behind them.
pub open spec fn with_images(parts: Seq<PartView>, images: Seq<String>) -> Seq<PartView>
    decreases images.len(),
{
    if images.len() == 0 {
        parts
    } else {
        with_images(parts, images.drop_last()).push(PartView::Image(images.last()@))
    }
}

fn push_images(content: &mut ToolChatUserContent, images: &Vec<String>)
    ensures
        final(content)@ == with_images(old(content)@, images@),
{
    let mut i: usize = 0;
    assert(images@.take(0) =~= Seq::empty());
    while i < images.len()
        invariant
            i <= images@.len(),
            content@ == with_images(old(content)@, images@.take(i as int)),
        decreases images@.len() - i,
    {
        content.push_image(images[i].clone());
        assert(images@.take(i + 1).drop_last() =~= images@.take(i as int));
        i += 1;
    }
    assert(images@.take(i as int) =~= images@);
}

/// What has been laid out of a context.
pub struct LayoutView {
    pub context: Seq<MessageView>,
    /// The date that was shown last.
    pub last_date: Option<Seq<char>>,
    pub unread: Seq<i64>,
    /// Whether the next message begins a new block.
    pub boundary: bool,
    /// The message before, and the block it belongs to.
    pub previous: Option<(int, i64)>,
}

/// A context with a message of somebody else. It joins the last message where that is one of a
/// user and no block begins; the date is shown where it changes.
pub open spec fn with_user_line(
    context: Seq<MessageView>,
    last_date: Option<Seq<char>>,
    date: Seq<char>,
    line: Seq<char>,
    images: Seq<String>,
    new_block: bool,
) -> Seq<MessageView> {
    let dated = last_date != Some(date);
    if context.len() > 0 && context.last() is User && !new_block {
        let parts = context.last()->User_content;
        let headed = if dated {
            with_text(parts, "\n"@ + date)
        } else {
            parts
        };
        context.drop_last().push(
            MessageView::User { content: with_images(with_text(headed, "\n"@ + line), images) },
        )
    } else {
        let text = if dated {
            date + "\n"@ + line
        } else {
            line
        };
        context.push(
            MessageView::User { content: with_images(seq![PartView::Text(text)], images) },
        )
    }
}

/// A context with a message of the assistant. It joins the last message where that is one of the
/// assistant without tool calls and no block begins.
pub open spec fn with_assistant_line(
    context: Seq<MessageView>,
    text: Seq<char>,
    new_block: bool,
) -> Seq<MessageView> {
    let fresh = context.push(
        MessageView::Assistant { content: Some(text), reasoning: None, tool_calls: Seq::empty() },
    );
    if new_block || context.len() == 0 {
        fresh
    } else {
        match context.last() {
            MessageView::Assistant { content: Some(said), reasoning, tool_calls } => {
                if tool_calls.len() == 0 {
                    context.drop_last().push(
                        MessageView::Assistant {
                            content: Some(said + "\n"@ + text),
                            reasoning,
                            tool_calls,
                        },
                    )
                } else {
                    fresh
                }
            },
            _ => fresh,
        }
    }
}

/// A layout with a message.
pub open spec fn with_message(
    layout: LayoutView,
    entry: HistoryEntry,
    bot_id: Seq<char>,
    new_block: bool,
) -> LayoutView {
    let message = entry.message;
    if message.sender_id@ == bot_id {
        LayoutView {
            context: with_assistant_line(
                layout.context,
                text_or_empty(message.content_text),
                new_block,
            ),
            ..layout
        }
    } else {
        LayoutView {
            context: with_user_line(
                layout.context,
                layout.last_date,
                entry.date@,
                history_line(message, entry.time@),
                entry.images@,
                new_block,
            ),
            last_date: Some(entry.date@),
            unread: if message.is_read {
                layout.unread
            } else {
                layout.unread.push(message.id)
            },
            ..layout
        }
    }
}

/// Whether any tool exchanges already show a message.
pub open spec fn suppressed_by(histories: Seq<HistoryView>, id: i64) -> bool {
    exists|i: int| 0 <= i < histories.len() && (#[trigger] histories[i]).suppressed.contains(id)
}

/// The messages of the tool exchanges that stand behind `anchor`.
pub open spec fn exchanges_behind(histories: Seq<HistoryView>, anchor: Option<i64>) -> Seq<
    MessageView,
>
    decreases histories.len(),
{
    if histories.len() == 0 {
        Seq::empty()
    } else {
        let front = exchanges_behind(histories.drop_last(), anchor);
        if histories.last().anchor == anchor {
            front + rounds_messages(histories.last().rounds)
        } else {
            front
        }
    }
}

/// Whether a block begins with the entry at `index`: because one was due, because a number of
/// messages is full, or because a block ended behind the message before.
pub open spec fn begins_block(
    layout: LayoutView,
    state: StateView,
    index: int,
    block_size: int,
) -> bool {
    layout.boundary || (layout.previous matches Some((block, id)) && (block != index / block_size
        || state.sealed.contains(id)))
}

/// A layout with the entry at `index`: the message, unless tool exchanges already show it, and
/// behind it the tool exchanges that belong there.
pub open spec fn with_entry(
    layout: LayoutView,
    entry: HistoryEntry,
    index: int,
    block_size: int,
    bot_id: Seq<char>,
    state: StateView,
) -> LayoutView {
    let id = entry.message.id;
    let new_block = begins_block(layout, state, index, block_size);
    let shown = if suppressed_by(state.histories, id) {
        LayoutView { boundary: new_block, ..layout }
    } else {
        LayoutView { boundary: false, ..with_message(layout, entry, bot_id, new_block) }
    };
    LayoutView {
        context: shown.context + exchanges_behind(state.histories, Some(id)),
        previous: Some((index / block_size, id)),
        ..shown
    }
}

/// The layout of the first `n` entries behind the given messages.
pub open spec fn layout_of(
    head: Seq<MessageView>,
    entries: Seq<HistoryEntry>,
    n: nat,
    block_size: int,
    bot_id: Seq<char>,
    state: StateView,
) -> LayoutView
    decreases n,
{
    if n == 0 {
        LayoutView {
            context: head,
            last_date: None,
            unread: Seq::empty(),
            boundary: false,
            previous: None,
        }
    } else {
        with_entry(
            layout_of(head, entries, (n - 1) as nat, block_size, bot_id, state),
            entries[n - 1],
            n - 1,
            block_size,
            bot_id,
            state,
        )
    }
}

/// The messages with which every context begins.
pub open spec fn context_head(system_prompt: Seq<char>, histories: Seq<HistoryView>) -> Seq<
    MessageView,
> {
    Seq::empty().push(MessageView::System { content: system_prompt }).push(
        MessageView::User { content: seq![PartView::Text("# 聊天记录\n"@)] },
    ) + exchanges_behind(histories, None)
}

/// A complete context: the system prompt, the history, a passing prompt, and the instructions at
/// the very end, where their changes leave what stands before them as it was.
pub open spec fn full_context(
    system_prompt: Seq<char>,
    entries: Seq<HistoryEntry>,
    block_size: int,
    bot_id: Seq<char>,
    state: StateView,
    transient: Option<Seq<char>>,
    instruction: Seq<char>,
) -> Seq<MessageView> {
    let laid = layout_of(
        context_head(system_prompt, state.histories),
        entries,
        entries.len(),
        block_size,
        bot_id,
        state,
    ).context;
    let prompted = match transient {
        Some(prompt) => laid.push(MessageView::User { content: seq![PartView::Text(prompt)] }),
        None => laid,
    };
    prompted.push(MessageView::System { content: instruction })
}

/// Appends a message of the assistant.
pub fn append_assistant_history_message(
    context: &mut Vec<ToolChatMessage>,
    message: &ChatMessage,
    starts_new_block: bool,
)
    ensures
        messages_view(final(context)@) == with_assistant_line(
            messages_view(old(context)@),
            text_or_empty(message.content_text),
            starts_new_block,
        ),
{
    let text = copy_text_or_empty(&message.content_text);
    let ghost before = messages_view(context@);
    let n: usize = context.len();
    if !starts_new_block && n > 0 {
        assert(before.last() == context@[n - 1]@);
        let joins = match &context[n - 1] {
            ToolChatMessage::Assistant { content: Some(_), tool_calls, .. } => tool_calls.len()
                == 0,
            _ => false,
        };
        if joins {
            if let Some(last) = context.pop() {
                assert(last@ == before.last());
                assert(messages_view(context@) =~= before.drop_last());
                match last {
                    ToolChatMessage::Assistant { content: Some(said), reasoning, tool_calls } => {
                        let mut longer = said;
                        longer.push_str("\n");
                        longer.push_str(&text);
                        push_message(
                            context,
                            ToolChatMessage::Assistant {
                                content: Some(longer),
                                reasoning,
                                tool_calls,
                            },
                        );
                    },
                    other => {
                        push_message(context, other);
                    },
                }
            }
            return;
        }
    }
    let tool_calls: Vec<ToolCall> = Vec::new();
    assert(calls_view(tool_calls@) =~= Seq::empty());
    push_message(
        context,
        ToolChatMessage::Assistant { content: Some(text), reasoning: None, tool_calls },
    );
}

/// Appends a message of somebody else.
fn append_user_line(
    context: &mut Vec<ToolChatMessage>,
    entry: &HistoryEntry,
    starts_new_block: bool,
    last_rendered_date: &Option<String>,
)
    ensures
        messages_view(final(context)@) == with_user_line(
            messages_view(old(context)@),
            option_text(*last_rendered_date),
            entry.date@,
            history_line(entry.message, entry.time@),
            entry.images@,
            starts_new_block,
        ),
{
    let line = history_message_line(&entry.message, &entry.time);
    let dated = match last_rendered_date {
        Some(date) => !same_text(date, &entry.date),
        None => true,
    };
    let ghost before = messages_view(context@);
    let n: usize = context.len();
    if !starts_new_block && n > 0 {
        assert(before.last() == context@[n - 1]@);
        let joins = match &context[n - 1] {
            ToolChatMessage::User { .. } => true,
            _ => false,
        };
        if joins {
            if let Some(last) = context.pop() {
                assert(last@ == before.last());
                assert(messages_view(context@) =~= before.drop_last());
                match last {
                    ToolChatMessage::User { content } => {
                        let mut longer = content;
                        if dated {
                            let mut heading = "\n".to_owned();
                            heading.push_str(&entry.date);
                            longer.push_text(&heading);
                        }
                        let mut next = "\n".to_owned();
                        next.push_str(&line);
                        longer.push_text(&next);
                        push_images(&mut longer, &entry.images);
                        push_message(context, ToolChatMessage::User { content: longer });
                    },
                    other => {
                        push_message(context, other);
                    },
                }
            }
            return;
        }
    }
    let mut text = String::new();
    if dated {
        text.push_str(&entry.date);
        text.push_str("\n");
    }
    text.push_str(&line);
    assert(text@ =~= if dated {
        entry.date@ + "\n"@ + line@
    } else {
        line@
    });
    let mut content = ToolChatUserContent::text(&text);
    push_images(&mut content, &entry.images);
    push_message(context, ToolChatMessage::User { content });
}

/// What has been laid out of a context.
struct Layout {
    context: Vec<ToolChatMessage>,
    last_date: Option<String>,
    unread: Vec<i64>,
    boundary: bool,
    previous: Option<(usize, i64)>,
}

impl Layout {
    spec fn model(self) -> LayoutView {
        LayoutView {
            context: messages_view(self.context@),
            last_date: option_text(self.last_date),
            unread: self.unread@,
            boundary: self.boundary,
            previous: match self.previous {
                Some((block, id)) => Some((block as int, id)),
                None => None,
            },
        }
    }
}

/// Appends a message to a context.
fn append_chat_message(layout: &mut Layout, entry: &HistoryEntry, bot_id: &str, new_block: bool)
    ensures
        final(layout).model() == with_message(old(layout).model(), *entry, bot_id@, new_block),
{
    if same_text(&entry.message.sender_id, bot_id) {
        append_assistant_history_message(&mut layout.context, &entry.message, new_block);
        return;
    }
    if !entry.message.is_read {
        layout.unread.push(entry.message.id);
    }
    append_user_line(&mut layout.context, entry, new_block, &layout.last_date);
    layout.last_date = Some(entry.date.clone());
}

/// Whether any tool exchanges already show a message.
fn is_suppressed(histories: &Vec<ActiveToolHistory>, id: i64) -> (r: bool)
    ensures
        r == suppressed_by(histories_view(histories@), id),
{
    let ghost all = histories_view(histories@);
    let mut i: usize = 0;
    while i < histories.len()
        invariant
            i <= histories@.len(),
            all == histories_view(histories@),
            forall|j: int| 0 <= j < i ==> !(#[trigger] all[j]).suppressed.contains(id),
        decreases histories@.len() - i,
    {
        assert(all[i as int] == histories@[i as int]@);
        if histories[i].suppresses_message(id) {
            return true;
        }
        i += 1;
    }
    false
}

/// Whether two optional numbers are the same.
fn same_anchor(a: Option<i64>, b: Option<i64>) -> (r: bool)
    ensures
        r == (a == b),
{
    match (a, b) {
        (Some(x), Some(y)) => x == y,
        (None, None) => true,
        _ => false,
    }
}

/// Appends the tool exchanges that stand behind `anchor`.
fn append_exchanges(
    context: &mut Vec<ToolChatMessage>,
    histories: &Vec<ActiveToolHistory>,
    anchor: Option<i64>,
)
    ensures
        messages_view(final(context)@) == messages_view(old(context)@) + exchanges_behind(
            histories_view(histories@),
            anchor,
        ),
{
    let ghost before = messages_view(context@);
    let ghost all = histories_view(histories@);
    let mut i: usize = 0;
    while i < histories.len()
        invariant
            i <= histories@.len(),
            all == histories_view(histories@),
            messages_view(context@) =~= before + exchanges_behind(all.take(i as int), anchor),
        decreases histories@.len() - i,
    {
        assert(all.take(i + 1).drop_last() =~= all.take(i as int));
        assert(all.take(i + 1).last() == histories@[i as int]@);
        if same_anchor(histories[i].anchor(), anchor) {
            histories[i].extend_messages(context);
        }
        i += 1;
    }
    assert(all.take(i as int) =~= all);
}

/// A context together with what is to be remembered of it.
#[derive(Debug)]
pub struct BuiltContext {
    pub messages: Vec<ToolChatMessage>,
    pub unread_message_ids: Vec<i64>,
    pub latest_message_id: Option<i64>,
}

/// The complete context of a request.
pub fn build_context(
    state: &RuntimeContextState,
    entries: &Vec<HistoryEntry>,
    history_block_size: usize,
    bot_id: &str,
    system_prompt: &str,
    transient_user_prompt: &Option<String>,
    instruction_prompt: &str,
) -> (r: BuiltContext)
    requires
        history_block_size >= 1,
    ensures
        messages_view(r.messages@) == full_context(
            system_prompt@,
            entries@,
            history_block_size as int,
            bot_id@,
            state@,
            option_text(*transient_user_prompt),
            instruction_prompt@,
        ),
        r.unread_message_ids@ == layout_of(
            context_head(system_prompt@, state@.histories),
            entries@,
            entries@.len(),
            history_block_size as int,
            bot_id@,
            state@,
        ).unread,
        r.latest_message_id == (if entries@.len() == 0 {
            None
        } else {
            Some(entries@.last().message.id)
        }),
{
    let histories = state.active_tool_histories();
    let mut context: Vec<ToolChatMessage> = Vec::new();
    assert(messages_view(context@) =~= Seq::empty());
    push_message(&mut context, ToolChatMessage::System { content: system_prompt.to_owned() });
    push_message(
        &mut context,
        ToolChatMessage::User { content: ToolChatUserContent::text("# 聊天记录\n") },
    );
    append_exchanges(&mut context, histories, None);
    let ghost head = context_head(system_prompt@, state@.histories);
    assert(messages_view(context@) == head);
    let mut layout = Layout {
        context,
        last_date: None,
        unread: Vec::new(),
        boundary: false,
        previous: None,
    };
    let ghost block = history_block_size as int;
    let mut i: usize = 0;
    while i < entries.len()
        invariant
            i <= entries@.len(),
            history_block_size >= 1,
            block == history_block_size as int,
            histories_view(histories@) == state@.histories,
            layout.model() == layout_of(head, entries@, i as nat, block, bot_id@, state@),
        decreases entries@.len() - i,
    {
        let entry = &entries[i];
        let id: i64 = entry.message.id;
        let block_index: usize = i / history_block_size;
        let new_block = layout.boundary || match layout.previous {
            Some((before, previous_id)) => before != block_index || state.is_sealed_after(
                previous_id,
            ),
            None => false,
        };
        assert(new_block == begins_block(layout.model(), state@, i as int, block));
        let ghost before = layout.model();
        if is_suppressed(histories, id) {
            layout.boundary = new_block;
        } else {
            append_chat_message(&mut layout, entry, bot_id, new_block);
            layout.boundary = false;
        }
        append_exchanges(&mut layout.context, histories, Some(id));
        layout.previous = Some((block_index, id));
        assert(layout.model() == with_entry(before, *entry, i as int, block, bot_id@, state@));
        i += 1;
    }
    let latest: Option<i64> = if entries.len() == 0 {
        None
    } else {
        Some(entries[entries.len() - 1].message.id)
    };
    let mut messages = layout.context;
    if let Some(prompt) = transient_user_prompt {
        push_message(
            &mut messages,
            ToolChatMessage::User { content: ToolChatUserContent::text(prompt) },
        );
    }
    push_message(&mut messages, ToolChatMessage::System { content: instruction_prompt.to_owned() });
    BuiltContext { messages, unread_message_ids: layout.unread, latest_message_id: latest }
}

/// Every context begins with the system prompt and ends with the instructions.
pub proof fn law_context_frame(
    system_prompt: Seq<char>,
    entries: Seq<HistoryEntry>,
    block_size: int,
    bot_id: Seq<char>,
    state: StateView,
    transient: Option<Seq<char>>,
    instruction: Seq<char>,
)
    ensures
        ({
            let context = full_context(
                system_prompt,
                entries,
                block_size,
                bot_id,
                state,
                transient,
                instruction,
            );
            &&& context.len() >= 3
            &&& context[0] == (MessageView::System { content: system_prompt })
            &&& context.last() == (MessageView::System { content: instruction })
        }),
{
    lemma_head_stays(
        context_head(system_prompt, state.histories),
        entries,
        entries.len(),
        block_size,
        bot_id,
        state,
    );
}

/// The first message of a context stays, and no message is taken out.
proof fn lemma_head_stays(
    head: Seq<MessageView>,
    entries: Seq<HistoryEntry>,
    n: nat,
    block_size: int,
    bot_id: Seq<char>,
    state: StateView,
)
    requires
        n <= entries.len(),
        head.len() >= 2,
    ensures
        layout_of(head, entries, n, block_size, bot_id, state).context.len() >= head.len(),
        layout_of(head, entries, n, block_size, bot_id, state).context[0] == head[0],
    decreases n,
{
    if n > 0 {
        lemma_head_stays(head, entries, (n - 1) as nat, block_size, bot_id, state);
    }
}

/// The unread messages among the first `n` entries that a context shows.
pub open spec fn unread_shown(
    entries: Seq<HistoryEntry>,
    n: nat,
    bot_id: Seq<char>,
    state: StateView,
) -> Seq<i64>
    decreases n,
{
    if n == 0 {
        Seq::empty()
    } else {
        let front = unread_shown(entries, (n - 1) as nat, bot_id, state);
        let message = entries[n - 1].message;
        if message.sender_id@ != bot_id && !message.is_read && !suppressed_by(
            state.histories,
            message.id,
        ) {
            front.push(message.id)
        } else {
            front
        }
    }
}

/// The messages to be marked as read are exactly the unread ones of others that the context
/// shows, in their order.
pub proof fn law_unread_messages(
    head: Seq<MessageView>,
    entries: Seq<HistoryEntry>,
    n: nat,
    block_size: int,
    bot_id: Seq<char>,
    state: StateView,
)
    requires
        n <= entries.len(),
    ensures
        layout_of(head, entries, n, block_size, bot_id, state).unread == unread_shown(
            entries,
            n,
            bot_id,
            state,
        ),
    decreases n,
{
    if n > 0 {
        law_unread_messages(head, entries, (n - 1) as nat, block_size, bot_id, state);
    }
}

/// Once a block has ended behind a message, because it was ended there or because the number of
/// messages is full, later messages leave everything up to it as it was.
pub proof fn law_sealed_history_is_stable(
    head: Seq<MessageView>,
    entries: Seq<HistoryEntry>,
    n: nat,
    m: nat,
    block_size: int,
    bot_id: Seq<char>,
    state: StateView,
)
    requires
        0 < n <= m <= entries.len(),
        state.sealed.contains(entries[n - 1].message.id) || (block_size > 0 && n as int
            % block_size == 0),
    ensures
        ({
            let base = layout_of(head, entries, n, block_size, bot_id, state).context;
            let longer = layout_of(head, entries, m, block_size, bot_id, state);
            &&& base.len() <= longer.context.len()
            &&& longer.context.take(base.len() as int) == base
            &&& longer.context.len() == base.len() ==> begins_block(
                longer,
                state,
                m as int,
                block_size,
            )
        }),
    decreases m,
{
    let base = layout_of(head, entries, n, block_size, bot_id, state).context;
    if m == n {
        assert(base.take(base.len() as int) =~= base);
        if !state.sealed.contains(entries[n - 1].message.id) {
            assert((n - 1) / block_size != n as int / block_size) by (nonlinear_arith)
                requires
                    block_size > 0,
                    n as int % block_size == 0,
            ;
        }
    } else {
        let k = (m - 1) as nat;
        law_sealed_history_is_stable(head, entries, n, k, block_size, bot_id, state);
        let before = layout_of(head, entries, k, block_size, bot_id, state);
        let after = layout_of(head, entries, m, block_size, bot_id, state);
        let entry = entries[k as int];
        let id = entry.message.id;
        let new_block = begins_block(before, state, k as int, block_size);
        let shown = if suppressed_by(state.histories, id) {
            before.context
        } else {
            with_message(before, entry, bot_id, new_block).context
        };
        assert(after.context == shown + exchanges_behind(state.histories, Some(id)));
        if before.context.len() == base.len() {
            assert(new_block);
        }
        assert(base.len() <= shown.len());
        assert(shown.take(base.len() as int) =~= base) by {
            if !new_block && !suppressed_by(state.histories, id) {
                assert(before.context.len() > base.len());
            }
            assert forall|i: int| 0 <= i < base.len() implies shown[i] == base[i] by {
                assert(before.context.take(base.len() as int)[i] == base[i]);
                assert(shown[i] == before.context[i]);
            }
        }
        assert(after.context.take(base.len() as int) =~= base) by {
            assert forall|i: int| 0 <= i < base.len() implies after.context[i] == base[i] by {
                assert(shown.take(base.len() as int)[i] == base[i]);
            }
        }
    }
}

/// The messages that may carry their images: the last `window` ones, where the model sees images.
pub open spec fn vision_ids(ids: Seq<i64>, supports_vision: bool, window: nat) -> Set<i64> {
    if !supports_vision {
        Set::empty()
    } else if ids.len() <= window {
        ids.to_set()
    } else {
        ids.skip(ids.len() - window).to_set()
    }
}

/// The messages that may carry their images: the last `message_window` ones, where the model sees
/// images.
pub fn vision_message_ids(
    message_ids: &Vec<i64>,
    supports_vision: bool,
    message_window: usize,
) -> (r: IdSet)
    ensures
        r@ == vision_ids(message_ids@, supports_vision, message_window as nat),
{
    if !supports_vision {
        return IdSet::new();
    }
    let start: usize = if message_ids.len() <= message_window {
        0
    } else {
        message_ids.len() - message_window
    };
    let mut last: Vec<i64> = Vec::new();
    let mut i: usize = start;
    while i < message_ids.len()
        invariant
            start <= i <= message_ids@.len(),
            last@ =~= message_ids@.subrange(start as int, i as int),
        decreases message_ids@.len() - i,
    {
        last.push(message_ids[i]);
        i += 1;
    }
    assert(last@ =~= message_ids@.skip(start as int));
    assert(start == 0 ==> last@ =~= message_ids@);
    IdSet::from_list(&last)
}

/// The time of the first unread message of somebody else.
pub open spec fn first_unread_time(messages: Seq<ChatMessage>, bot_id: Seq<char>) -> Option<i64>
    decreases messages.len(),
{
    if messages.len() == 0 {
        None
    } else if messages[0].sender_id@ != bot_id && !messages[0].is_read {
        Some(messages[0].event_timestamp)
    } else {
        first_unread_time(messages.drop_first(), bot_id)
    }
}

/// The time of the first unread message of somebody else.
pub fn earliest_unread_timestamp(messages: &Vec<ChatMessage>, bot_id: &str) -> (r: Option<i64>)
    ensures
        r == first_unread_time(messages@, bot_id@),
{
    let mut i: usize = 0;
    assert(messages@.skip(0) =~= messages@);
    while i < messages.len()
        invariant
            i <= messages@.len(),
            first_unread_time(messages@, bot_id@) == first_unread_time(
                messages@.skip(i as int),
                bot_id@,
            ),
        decreases messages@.len() - i,
    {
        assert(messages@.skip(i as int)[0] == messages@[i as int]);
        assert(messages@.skip(i as int).drop_first() =~= messages@.skip(i + 1));
        if !same_text(&messages[i].sender_id, bot_id) && !messages[i].is_read {
            return Some(messages[i].event_timestamp);
        }
        i += 1;
    }
    None
}

/// A date and a time of day in one text.
pub open spec fn date_minute_text(t: LocalTime) -> Seq<char> {
    date_text(t) + " "@ + minute_text(t)
}

/// A date and a time of day in one text.
pub fn date_and_minute(t: &LocalTime) -> (r: String)
    requires
        t.valid(),
    ensures
        r@ == date_minute_text(*t),
{
    let mut r = t.date();
    r.push_str(" ");
    r.push_str(&t.hour_minute());
    r
}

/// The time from which messages are unread, as the clock on the wall shows it.
pub fn render_unread_message_time(earliest_unread_timestamp: Option<i64>) -> (r: Option<String>)
    ensures
        match earliest_unread_timestamp {
            None => r is None,
            Some(timestamp) => if showable(timestamp) {
                exists|t: LocalTime|
                    #![trigger date_minute_text(t)]
                    shown_at(t, timestamp) && option_text(r) == Some(date_minute_text(t))
            } else {
                r is None
            },
        },
{
    match earliest_unread_timestamp {
        None => None,
        Some(timestamp) => match local_time(timestamp) {
            Some(t) => {
                let text = date_and_minute(&t);
                Some(text)
            },
            None => None,
        },
    }
}

/// The lines of a text that do not hold `placeholder`; each line ends with its line break.
pub open spec fn lines_without(s: Seq<char>, placeholder: Seq<char>, i: int, line: Seq<char>) -> Seq<
    char,
>
    decreases s.len() - i,
{
    if i < 0 || i >= s.len() {
        if has_text(line, placeholder) {
            Seq::empty()
        } else {
            line
        }
    } else {
        let longer = line.push(s[i]);
        if s[i] == '\n' {
            (if has_text(longer, placeholder) {
                Seq::empty()
            } else {
                longer
            }) + lines_without(s, placeholder, i + 1, Seq::empty())
        } else {
            lines_without(s, placeholder, i + 1, longer)
        }
    }
}

/// A prompt with a value in the place of `placeholder`, or without the lines that hold it where
/// there is no value.
pub open spec fn optional_line(
    prompt: Seq<char>,
    placeholder: Seq<char>,
    value: Option<Seq<char>>,
) -> Seq<char> {
    match value {
        Some(v) => replace_of(prompt, placeholder, v),
        None => lines_without(prompt, placeholder, 0, Seq::empty()),
    }
}

/// A prompt with a value in the place of `placeholder`, or without the lines that hold it where
/// there is no value.
pub fn replace_optional_prompt_line(
    prompt: &str,
    placeholder: &str,
    value: &Option<String>,
) -> (r: String)
    ensures
        r@ == optional_line(prompt@, placeholder@, option_text(*value)),
{
    if let Some(v) = value {
        return replace(prompt, placeholder, v);
    }
    let chars = chars_of(prompt);
    let mut out = String::new();
    let mut line = String::new();
    let mut i: usize = 0;
    while i < chars.len()
        invariant
            i <= chars@.len(),
            chars@ == prompt@,
            out@ + lines_without(prompt@, placeholder@, i as int, line@) =~= lines_without(
                prompt@,
                placeholder@,
                0,
                Seq::empty(),
            ),
        decreases chars@.len() - i,
    {
        line.push(chars[i]);
        if chars[i] == '\n' {
            if !contains_text(&line, placeholder) {
                out.push_str(&line);
            }
            line = String::new();
        }
        i += 1;
    }
    if !contains_text(&line, placeholder) {
        out.push_str(&line);
    }
    out
}

/// What the instructions of a request are filled with.
#[derive(Debug, PartialEq, Eq)]
pub struct InstructionValues {
    pub unread_message_time: Option<String>,
    pub date: String,
    pub scene: String,
    pub scheduled_tasks: String,
    pub character_memories: String,
    pub recent_user_memories: String,
}

/// Instructions filled with their values.
pub open spec fn filled_instructions(template: Seq<char>, values: InstructionValues) -> Seq<char> {
    let timed = optional_line(
        template,
        "{{unread_message_time}}"@,
        option_text(values.unread_message_time),
    );
    let dated = replace_of(timed, "{{date}}"@, values.date@);
    let placed = replace_of(dated, "{{scene}}"@, values.scene@);
    let tasked = replace_of(placed, "{{scheduled_tasks}}"@, values.scheduled_tasks@);
    let remembered = replace_of(tasked, "{{character_memories}}"@, values.character_memories@);
    replace_of(remembered, "{{recent_user_memories}}"@, values.recent_user_memories@)
}

/// Instructions filled with their values.
pub fn render_instruction_prompt(template: &str, values: &InstructionValues) -> (r: String)
    ensures
        r@ == filled_instructions(template@, *values),
{
    let timed = replace_optional_prompt_line(
        template,
        "{{unread_message_time}}",
        &values.unread_message_time,
    );
    let dated = replace(&timed, "{{date}}", &values.date);
    let placed = replace(&dated, "{{scene}}", &values.scene);
    let tasked = replace(&placed, "{{scheduled_tasks}}", &values.scheduled_tasks);
    let remembered = replace(&tasked, "{{character_memories}}", &values.character_memories);
    replace(&remembered, "{{recent_user_memories}}", &values.recent_user_memories)
}

/// The name of a group and the number of its members.
#[derive(Debug, PartialEq, Eq)]
pub struct GroupInfo {
    pub name: String,
    pub member_count: u64,
}

/// The scene of a conversation, with what is known of its group.
pub open spec fn scene_text(scene: Seq<char>, group: Option<GroupInfo>) -> Seq<char> {
    match group {
        Some(g) => scene + "\n- 当前群名称:"@ + g.name@ + "\n- 当前群成员数量:"@ + decimal_of(
            g.member_count as nat,
        ),
        None => scene,
    }
}

/// The scene of a conversation, with what is known of its group.
pub fn render_scene(scene: &str, group_info: &Option<GroupInfo>) -> (r: String)
    ensures
        r@ == scene_text(scene@, *group_info),
{
    let mut r = scene.to_owned();
    if let Some(g) = group_info {
        r.push_str("\n- 当前群名称:");
        r.push_str(&g.name);
        r.push_str("\n- 当前群成员数量:");
        r.push_str(&decimal(g.member_count));
    }
    r
}

/// The part of the prompt that never changes.
pub fn render_static_system_prompt(system_prompt: &str, character_prompt: &str) -> (r: String)
    ensures
        r@ == system_prompt@ + "\n\n"@ + character_prompt@,
{
    let mut r = system_prompt.to_owned();
    r.push_str("\n\n");
    r.push_str(character_prompt);
    r
}

/// The position of the last system message.
pub open spec fn last_system(messages: Seq<MessageView>) -> Option<int>
    decreases messages.len(),
{
    if messages.len() == 0 {
        None
    } else if messages.last() is System {
        Some(messages.len() - 1)
    } else {
        last_system(messages.drop_last())
    }
}

/// Puts new instructions in the place of the old ones, the last system message; tells whether
/// there were any.
pub fn refresh_instruction_prompt(
    messages: &mut Vec<ToolChatMessage>,
    instruction_prompt: &str,
) -> (r: bool)
    ensures
        match last_system(messages_view(old(messages)@)) {
            Some(i) => r && messages_view(final(messages)@) == messages_view(
                old(messages)@,
            ).update(i, MessageView::System { content: instruction_prompt@ }),
            None => !r && messages_view(final(messages)@) == messages_view(old(messages)@),
        },
{
    let ghost all = messages_view(messages@);
    let mut i: usize = messages.len();
    assert(all.take(i as int) =~= all);
    while i > 0
        invariant
            i <= messages@.len(),
            all == messages_view(messages@),
            all == messages_view(old(messages)@),
            last_system(all) == last_system(all.take(i as int)),
        decreases i,
    {
        assert(all.take(i as int).last() == messages@[i - 1]@);
        assert(all.take(i as int).drop_last() =~= all.take(i - 1));
        let found = match &messages[i - 1] {
            ToolChatMessage::System { .. } => true,
            _ => false,
        };
        if found {
            messages.set(
                i - 1,
                ToolChatMessage::System { content: instruction_prompt.to_owned() },
            );
            assert(messages_view(messages@) =~= all.update(
                i - 1,
                MessageView::System { content: instruction_prompt@ },
            ));
            return true;
        }
        i -= 1;
    }
    false
}

/// Whether the model has to see any of the results before the turn can end.
pub open spec fn needs_answer(results: Seq<ToolResult>) -> bool {
    exists|i: int| 0 <= i < results.len() && (#[trigger] results[i]).requires_ai_response
}

/// Whether the model has to see any of the results before the turn can end.
pub fn should_continue_tool_loop(tool_results: &Vec<ToolResult>) -> (r: bool)
    ensures
        r == needs_answer(tool_results@),
{
    let mut i: usize = 0;
    while i < tool_results.len()
        invariant
            i <= tool_results@.len(),
            forall|j: int| 0 <= j < i ==> !(#[trigger] tool_results@[j]).requires_ai_response,
        decreases tool_results@.len() - i,
    {
        if tool_results[i].requires_ai_response {
            return true;
        }
        i += 1;
    }
    false
}

/// A text to be sent: one that is more than white space.
pub open spec fn sendable(content: Option<Seq<char>>) -> Option<Seq<char>> {
    match content {
        Some(text) => if is_blank(text) {
            None
        } else {
            Some(text)
        },
        None => None,
    }
}

/// A text to be sent: one that is more than white space.
pub fn non_empty_response_content(content: &Option<String>) -> (r: Option<String>)
    ensures
        option_text(r) == sendable(option_text(*content)),
{
    match content {
        Some(text) => {
            if blank(text) {
                None
            } else {
                Some(text.clone())
            }
        },
        None => None,
    }
}

/// Whether a tool changes what the instructions show.
pub open spec fn changes_memory(name: Seq<char>) -> bool {
    ||| name == "set_character_memory"@
    ||| name == "delete_character_memory"@
    ||| name == "create_user_memory"@
    ||| name == "update_user_memory"@
    ||| name == "delete_user_memory"@
}

/// Whether any of the results changed what the instructions show.
pub open spec fn memory_changed(results: Seq<ToolResult>) -> bool {
    exists|i: int|
        0 <= i < results.len() && !(#[trigger] results[i]).is_error && changes_memory(
            results[i].tool_name@,
        )
}

fn is_memory_tool(name: &str) -> (r: bool)
    ensures
        r == changes_memory(name@),
{
    same_text(name, "set_character_memory") || same_text(name, "delete_character_memory")
        || same_text(name, "create_user_memory") || same_text(name, "update_user_memory")
        || same_text(name, "delete_user_memory")
}

/// Whether the instructions have to be filled anew after these results.
pub fn results_need_refresh(tool_results: &Vec<ToolResult>) -> (r: bool)
    ensures
        r == memory_changed(tool_results@),
{
    let mut i: usize = 0;
    while i < tool_results.len()
        invariant
            i <= tool_results@.len(),
            forall|j: int|
                0 <= j < i ==> (#[trigger] tool_results@[j]).is_error || !changes_memory(
                    tool_results@[j].tool_name@,
                ),
        decreases tool_results@.len() - i,
    {
        if !tool_results[i].is_error && is_memory_tool(&tool_results[i].tool_name) {
            return true;
        }
        i += 1;
    }
    false
}

/// Whether a request that failed is made again.
pub fn may_ask_again(attempt: u32, max_attempts: u32) -> (r: bool)
    ensures
        r == (attempt < max_attempts),
{
    attempt < max_attempts
}

/// Where the image of a piece of a message lies.
pub open spec fn image_path_in(part: JsonView) -> Option<Seq<char>> {
    if part.text_field("kind"@) == Some("image"@) {
        part.nested_text("data"@, "local_path"@)
    } else {
        None
    }
}

/// Where the images of pieces of a message lie, in order.
pub open spec fn image_paths_in(parts: Seq<JsonView>) -> Seq<Seq<char>>
    decreases parts.len(),
{
    if parts.len() == 0 {
        Seq::empty()
    } else {
        let rest = image_paths_in(parts.drop_last());
        match image_path_in(parts.last()) {
            Some(path) => rest.push(path),
            None => rest,
        }
    }
}

/// Where the images of a message lie; `parsed` are its pieces, where they are a list.
pub open spec fn image_paths_of(parsed: Option<JsonView>) -> Seq<Seq<char>> {
    match parsed {
        Some(JsonView::Array(parts)) => image_paths_in(parts),
        _ => Seq::empty(),
    }
}

/// Where the images of a message lie, once its pieces were parsed.
pub fn read_image_paths(parsed: &Option<Json>) -> (r: Vec<String>)
    ensures
        texts(r@) == image_paths_of(option_json(*parsed)),
{
    let mut paths: Vec<String> = Vec::new();
    assert(texts(paths@) =~= Seq::empty());
    let parts = match parsed {
        Some(v) => match v.as_array() {
            Some(parts) => parts,
            None => {
                return paths;
            },
        },
        None => {
            return paths;
        },
    };
    let ghost all = items_view(parts@);
    let mut i: usize = 0;
    assert(all.take(0) =~= Seq::empty());
    while i < parts.len()
        invariant
            i <= parts@.len(),
            all == items_view(parts@),
            texts(paths@) == image_paths_in(all.take(i as int)),
        decreases parts@.len() - i,
    {
        let ghost before = texts(paths@);
        assert(all.take(i + 1).drop_last() =~= all.take(i as int));
        assert(all.take(i + 1).last() == parts@[i as int]@);
        if is_text(&parts[i].text_at("kind"), "image") {
            if let Some(path) = parts[i].nested_text_at("data", "local_path") {
                paths.push(path);
                assert(texts(paths@) =~= before.push(path@));
            }
        }
        i += 1;
    }
    assert(all.take(i as int) =~= all);
    paths
}

/// Where the images of a stored message lie.
pub fn message_image_paths(message: &ChatMessage) -> (r: Vec<String>)
    ensures
        texts(r@) == image_paths_of(json_parsed(message.content_parts_json@)),
{
    read_image_paths(&parse_json(&message.content_parts_json))
}

/// What instructions are filled with, each value with its name.
pub open spec fn instruction_pairs(values: InstructionValues, time: Seq<char>) -> Seq<
    (Seq<char>, Seq<char>),
> {
    seq![
        ("unread_message_time"@, time),
        ("date"@, values.date@),
        ("scene"@, values.scene@),
        ("scheduled_tasks"@, values.scheduled_tasks@),
        ("character_memories"@, values.character_memories@),
        ("recent_user_memories"@, values.recent_user_memories@),
    ]
}

proof fn lemma_instruction_names(values: InstructionValues, time: Seq<char>)
    requires
        no_opening(time),
        no_opening(values.date@),
        no_opening(values.scene@),
        no_opening(values.scheduled_tasks@),
        no_opening(values.character_memories@),
        no_opening(values.recent_user_memories@),
    ensures
        values_fit(instruction_pairs(values, time)),
        "{{unread_message_time}}"@ == mark("unread_message_time"@),
        no_braces("unread_message_time"@),
        "{{date}}"@ == mark("date"@),
        no_braces("date"@),
        "{{scene}}"@ == mark("scene"@),
        no_braces("scene"@),
        "{{scheduled_tasks}}"@ == mark("scheduled_tasks"@),
        no_braces("scheduled_tasks"@),
        "{{character_memories}}"@ == mark("character_memories"@),
        no_braces("character_memories"@),
        "{{recent_user_memories}}"@ == mark("recent_user_memories"@),
        no_braces("recent_user_memories"@),
{
    reveal_strlit("{{");
    reveal_strlit("}}");
    reveal_strlit("unread_message_time");
    reveal_strlit("{{unread_message_time}}");
    assert("unread_message_time"@ =~= seq!['u', 'n', 'r', 'e', 'a', 'd', '_', 'm', 'e', 's', 's', 'a', 'g', 'e', '_', 't', 'i', 'm', 'e']);
    assert("{{unread_message_time}}"@ =~= mark("unread_message_time"@));
    reveal_strlit("date");
    reveal_strlit("{{date}}");
    assert("date"@ =~= seq!['d', 'a', 't', 'e']);
    assert("{{date}}"@ =~= mark("date"@));
    reveal_strlit("scene");
    reveal_strlit("{{scene}}");
    assert("scene"@ =~= seq!['s', 'c', 'e', 'n', 'e']);
    assert("{{scene}}"@ =~= mark("scene"@));
    reveal_strlit("scheduled_tasks");
    reveal_strlit("{{scheduled_tasks}}");
    assert("scheduled_tasks"@ =~= seq!['s', 'c', 'h', 'e', 'd', 'u', 'l', 'e', 'd', '_', 't', 'a', 's', 'k', 's']);
    assert("{{scheduled_tasks}}"@ =~= mark("scheduled_tasks"@));
    reveal_strlit("character_memories");
    reveal_strlit("{{character_memories}}");
    assert("character_memories"@ =~= seq!['c', 'h', 'a', 'r', 'a', 'c', 't', 'e', 'r', '_', 'm', 'e', 'm', 'o', 'r', 'i', 'e', 's']);
    assert("{{character_memories}}"@ =~= mark("character_memories"@));
    reveal_strlit("recent_user_memories");
    reveal_strlit("{{recent_user_memories}}");
    assert("recent_user_memories"@ =~= seq!['r', 'e', 'c', 'e', 'n', 't', '_', 'u', 's', 'e', 'r', '_', 'm', 'e', 'm', 'o', 'r', 'i', 'e', 's']);
    assert("{{recent_user_memories}}"@ =~= mark("recent_user_memories"@));
    assert("scene"@[2] != "scheduled_tasks"@[2]);
}

proof fn lemma_lines_kept(s: Seq<char>, placeholder: Seq<char>, i: int, line: Seq<char>)
    requires
        0 <= i <= s.len(),
        !has_text(line + s.skip(i), placeholder),
    ensures
        lines_without(s, placeholder, i, line) =~= line + s.skip(i),
    decreases s.len() - i,
{
    let whole = line + s.skip(i);
    if i == s.len() {
        assert(whole =~= line);
    } else {
        let longer = line.push(s[i]);
        let rest = s.skip(i + 1);
        assert(whole =~= longer + rest);
        if s[i] == '\n' {
            if has_text(longer, placeholder) {
                let at = choose|at: int| occurs_at(longer, placeholder, at);
                lemma_occurs_in_front(longer, rest, placeholder, at);
                assert(has_text(whole, placeholder));
            }
            if has_text(Seq::<char>::empty() + rest, placeholder) {
                assert(Seq::<char>::empty() + rest =~= rest);
                let at = choose|at: int| occurs_at(rest, placeholder, at);
                lemma_occurs_behind(longer, rest, placeholder, at);
                assert(has_text(whole, placeholder));
            }
            lemma_lines_kept(s, placeholder, i + 1, Seq::empty());
        } else {
            lemma_lines_kept(s, placeholder, i + 1, longer);
        }
    }
}

/// Each name in the instructions is replaced by its own value, and what stands around it stays:
/// name `k` is that of value `k`, in the order of the list. Where no message is unread the time has no
/// value, and a text that does not name it stays.
pub proof fn law_instructions_get_their_own_values(
    a: Seq<char>,
    b: Seq<char>,
    values: InstructionValues,
    k: int,
)
    requires
        no_opening(a),
        no_opening(b),
        values.unread_message_time matches Some(time) ==> no_opening(time@),
        no_opening(values.date@),
        no_opening(values.scene@),
        no_opening(values.scheduled_tasks@),
        no_opening(values.character_memories@),
        no_opening(values.recent_user_memories@),
        0 <= k < 6,
        k == 0 ==> values.unread_message_time is Some,
    ensures
        ({
            let name = seq![
                "{{unread_message_time}}"@,
                "{{date}}"@,
                "{{scene}}"@,
                "{{scheduled_tasks}}"@,
                "{{character_memories}}"@,
                "{{recent_user_memories}}"@,
            ][k];
            let value = seq![
                text_or_empty(values.unread_message_time),
                values.date@,
                values.scene@,
                values.scheduled_tasks@,
                values.character_memories@,
                values.recent_user_memories@,
            ][k];
            filled_instructions(a + name + b, values) == a + value + b
        }),
{
    let time = text_or_empty(values.unread_message_time);
    let pairs = instruction_pairs(values, time);
    lemma_instruction_names(values, time);
    let name = pairs[k].0;
    let s = a + mark(name) + b;
    law_names_get_their_own_values(a, b, pairs, k);
    assert(a + "{{"@ + name + "}}"@ + b =~= s);
    let none = pairs.take(0);
    let one = pairs.take(1);
    let two = pairs.take(2);
    let three = pairs.take(3);
    let four = pairs.take(4);
    let five = pairs.take(5);
    assert(one.drop_last() =~= none && two.drop_last() =~= one && three.drop_last() =~= two);
    assert(four.drop_last() =~= three && five.drop_last() =~= four);
    assert(pairs.drop_last() =~= five);
    assert(rendered_template(s, none) == s);
    assert(rendered_template(s, one) == replace_of(s, mark("unread_message_time"@), time));
    if values.unread_message_time is None {
        lemma_one_mark(a, name, b, "unread_message_time"@, time);
        assert(pairs[0].0 != pairs[k].0);
        assert(Seq::<char>::empty() + s.skip(0) =~= s);
        lemma_lines_kept(s, mark("unread_message_time"@), 0, Seq::empty());
    }
    assert(optional_line(
        s,
        "{{unread_message_time}}"@,
        option_text(values.unread_message_time),
    ) == rendered_template(s, one));
    assert(rendered_template(s, two) == replace_of(
        rendered_template(s, one),
        mark("date"@),
        values.date@,
    ));
    assert(rendered_template(s, three) == replace_of(
        rendered_template(s, two),
        mark("scene"@),
        values.scene@,
    ));
    assert(rendered_template(s, four) == replace_of(
        rendered_template(s, three),
        mark("scheduled_tasks"@),
        values.scheduled_tasks@,
    ));
    assert(rendered_template(s, five) == replace_of(
        rendered_template(s, four),
        mark("character_memories"@),
        values.character_memories@,
    ));
    assert(filled_instructions(s, values) == rendered_template(s, pairs));
}

/// New instructions take the place of the last system message: the message that is found is one of
/// the system, and no other comes behind it; where none is found there is none.
pub proof fn law_instructions_are_the_last_of_the_system(messages: Seq<MessageView>)
    ensures
        match last_system(messages) {
            Some(i) => 0 <= i < messages.len() && messages[i] is System && forall|j: int|
                i < j < messages.len() ==> !((#[trigger] messages[j]) is System),
            None => forall|j: int| 0 <= j < messages.len() ==> !((#[trigger] messages[j]) is System),
        },
    decreases messages.len(),
{
    if messages.len() > 0 && !(messages.last() is System) {
        let front = messages.drop_last();
        law_instructions_are_the_last_of_the_system(front);
        assert forall|j: int|
            0 <= j < messages.len() && (match last_system(front) {
                Some(i) => i < j,
                None => true,
            }) implies !((#[trigger] messages[j]) is System) by {
            if j < front.len() {
                assert(front[j] == messages[j]);
            }
        }
    }
}

/// The images of a message are exactly those of its image pieces, each once and in order: a piece adds
/// the path of its image where it is an image piece that names one, and nothing otherwise.
pub proof fn law_every_image_path_is_found(parts: Seq<JsonView>, part: JsonView)
    ensures
        image_paths_of(None).len() == 0,
        image_paths_of(Some(JsonView::Array(Seq::empty()))).len() == 0,
        image_paths_of(Some(JsonView::Array(parts.push(part)))) == match (
            part.text_field("kind"@) == Some("image"@),
            part.nested_text("data"@, "local_path"@),
        ) {
            (true, Some(path)) => image_paths_of(Some(JsonView::Array(parts))).push(path),
            _ => image_paths_of(Some(JsonView::Array(parts))),
        },
{
    assert(parts.push(part).drop_last() =~= parts);
}

/// A message may carry its images exactly where the model sees images and the message is among the
/// last ones of the window.
pub proof fn law_only_the_last_messages_carry_images(
    ids: Seq<i64>,
    supports_vision: bool,
    window: nat,
    id: i64,
)
    ensures
        vision_ids(ids, supports_vision, window).contains(id) <==> supports_vision && exists|i: int|
            0 <= i < ids.len() && i >= ids.len() - window && #[trigger] ids[i] == id,
{
    if supports_vision {
        let last = if ids.len() <= window {
            ids
        } else {
            ids.skip(ids.len() - window)
        };
        let start = ids.len() - last.len();
        if last.to_set().contains(id) {
            let k = choose|k: int| 0 <= k < last.len() && last[k] == id;
            assert(ids[start + k] == id);
        }
        if exists|i: int| 0 <= i < ids.len() && i >= ids.len() - window && #[trigger] ids[i] == id {
            let i = choose|i: int|
                0 <= i < ids.len() && i >= ids.len() - window && #[trigger] ids[i] == id;
            assert(last[i - start] == id);
        }
    }
}

} // verus!
