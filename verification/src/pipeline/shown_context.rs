//! What a context shows of the history that it was built from.

use vstd::prelude::*;

use crate::ai_provider::{
    with_text, ContextMessageView, MessageRole, MessageView, PartView,
};
use crate::conversation_context::{
    lemma_all_results, rounds_messages, HistoryView, RoundView, StateView,
};
use crate::pipeline::chat_pipeline::{
    plain_head, plain_layout, with_plain_entry, with_user_text, PlainLayout, UNREAD_DIVIDER,
};
use crate::pipeline::chat_processor::{
    begins_block, context_head, exchanges_behind, full_context, layout_of, suppressed_by,
    with_assistant_line, with_entry, with_images, with_message, with_user_line, HistoryEntry,
    LayoutView,
};
use crate::text::{lemma_occurs_at_end, occurs_at};

verus! {

/// Where a text stands in a context: in which message, in which piece of it, and where there.
pub struct Place {
    pub message: int,
    pub part: int,
    pub start: int,
}

/// Whether a place lies behind a text of so many characters at another place.
pub open spec fn lies_behind(later: Place, earlier: Place, length: nat) -> bool {
    later.message > earlier.message || (later.message == earlier.message && (later.part
        > earlier.part || (later.part == earlier.part && later.start >= earlier.start + length)))
}

/// Whether a text stands at a place in what a user says, with images right behind it.
pub open spec fn said_by_user(
    context: Seq<MessageView>,
    place: Place,
    text: Seq<char>,
    images: Seq<String>,
) -> bool {
    &&& 0 <= place.message < context.len()
    &&& (context[place.message] matches MessageView::User { content } && {
        &&& 0 <= place.part
        &&& place.part + images.len() < content.len()
        &&& (content[place.part] matches PartView::Text(whole) && occurs_at(
            whole,
            text,
            place.start,
        ) && (images.len() > 0 ==> place.start + text.len() == whole.len()))
        &&& forall|k: int|
            0 <= k < images.len() ==> content[place.part + 1 + k] == PartView::Image(
                (#[trigger] images[k])@,
            )
    })
}

/// Whether a text stands at a place in what the assistant says.
pub open spec fn said_by_assistant(
    context: Seq<MessageView>,
    place: Place,
    text: Seq<char>,
) -> bool {
    &&& 0 <= place.message < context.len()
    &&& place.part == 0
    &&& (context[place.message] matches MessageView::Assistant {
        content: Some(whole),
        reasoning,
        tool_calls,
    } && tool_calls.len() == 0 && occurs_at(whole, text, place.start))
}

/// The date of the last of the first `n` entries that the context shows as somebody else's.
pub open spec fn date_before(
    entries: Seq<HistoryEntry>,
    n: nat,
    bot_id: Seq<char>,
    histories: Seq<HistoryView>,
) -> Option<Seq<char>>
    decreases n,
{
    if n == 0 {
        None
    } else {
        let entry = entries[n - 1];
        if entry.message.sender_id@ != bot_id && !(exists|h: int|
            0 <= h < histories.len() && (#[trigger] histories[h]).suppressed.contains(
                entry.message.id,
            )) {
            Some(entry.date@)
        } else {
            date_before(entries, (n - 1) as nat, bot_id, histories)
        }
    }
}

/// What somebody else's entry is shown as: its date where that is not the date before, and the
/// name, the time and the text of its message.
pub open spec fn entry_text(entry: HistoryEntry, date: Option<Seq<char>>) -> Seq<char> {
    let name = match entry.message.sender_nickname {
        Some(nickname) => nickname@,
        None => entry.message.sender_display_name@,
    };
    let text = match entry.message.content_text {
        Some(content) => content@,
        None => Seq::empty(),
    };
    let line = name + "（"@ + entry.time@ + "）:"@ + text;
    if date == Some(entry.date@) {
        line
    } else {
        entry.date@ + "\n"@ + line
    }
}

/// Whether tool exchanges show an entry in its place.
pub open spec fn left_out(histories: Seq<HistoryView>, entry: HistoryEntry) -> bool {
    exists|h: int|
        0 <= h < histories.len() && (#[trigger] histories[h]).suppressed.contains(entry.message.id)
}

/// How many characters an entry takes.
pub open spec fn shown_length(
    entries: Seq<HistoryEntry>,
    i: int,
    bot_id: Seq<char>,
    histories: Seq<HistoryView>,
) -> nat {
    let entry = entries[i];
    if entry.message.sender_id@ == bot_id {
        match entry.message.content_text {
            Some(content) => content@.len(),
            None => 0,
        }
    } else {
        entry_text(entry, date_before(entries, i as nat, bot_id, histories)).len()
    }
}

/// Whether an entry is shown at a place: what somebody else wrote in a message of the user, with its
/// images right behind it, and what the assistant wrote in a message of the assistant.
pub open spec fn shown_in(
    context: Seq<MessageView>,
    entries: Seq<HistoryEntry>,
    i: int,
    bot_id: Seq<char>,
    histories: Seq<HistoryView>,
    place: Place,
) -> bool {
    let entry = entries[i];
    if entry.message.sender_id@ == bot_id {
        said_by_assistant(
            context,
            place,
            match entry.message.content_text {
                Some(content) => content@,
                None => Seq::empty(),
            },
        )
    } else {
        said_by_user(
            context,
            place,
            entry_text(entry, date_before(entries, i as nat, bot_id, histories)),
            entry.images@,
        )
    }
}

/// Whether the first `n` entries are shown at places, each behind those before it.
pub open spec fn all_shown_in(
    context: Seq<MessageView>,
    entries: Seq<HistoryEntry>,
    n: nat,
    bot_id: Seq<char>,
    histories: Seq<HistoryView>,
    places: Seq<Place>,
) -> bool {
    &&& places.len() == n
    &&& forall|i: int|
        0 <= i < n && !left_out(histories, entries[i]) ==> shown_in(
            context,
            entries,
            i,
            bot_id,
            histories,
            #[trigger] places[i],
        )
    &&& forall|i: int, j: int|
        0 <= i < j < n && !left_out(histories, entries[i]) && !left_out(histories, entries[j])
            ==> lies_behind(
            #[trigger] places[j],
            #[trigger] places[i],
            shown_length(entries, i, bot_id, histories),
        )
}

/// Whether pieces are continued: the pieces stay, and text may be added to the last one.
spec fn continued_parts(before: Seq<PartView>, after: Seq<PartView>) -> bool {
    &&& before.len() <= after.len()
    &&& forall|k: int| 0 <= k < before.len() - 1 ==> #[trigger] after[k] == before[k]
    &&& before.len() > 0 ==> match before.last() {
        PartView::Text(text) => after[before.len() - 1] matches PartView::Text(longer)
            && text.is_prefix_of(longer),
        PartView::Image(url) => after[before.len() - 1] == before.last(),
    }
}

/// Whether a message is continued.
spec fn continued_message(before: MessageView, after: MessageView) -> bool {
    match before {
        MessageView::User { content } => after matches MessageView::User { content: longer }
            && continued_parts(content, longer),
        MessageView::Assistant { content: Some(text), reasoning, tool_calls } => {
            after matches MessageView::Assistant {
                content: Some(longer),
                reasoning: kept,
                tool_calls: calls,
            } && text.is_prefix_of(longer) && kept == reasoning && calls == tool_calls && (
            tool_calls.len() > 0 ==> longer == text)
        },
        other => after == other,
    }
}

/// Whether a context is continued: no message changes but the last, and that is continued.
spec fn continued(before: Seq<MessageView>, after: Seq<MessageView>) -> bool {
    &&& before.len() <= after.len()
    &&& forall|k: int| 0 <= k < before.len() - 1 ==> #[trigger] after[k] == before[k]
    &&& before.len() > 0 ==> continued_message(before.last(), after[before.len() - 1])
}

proof fn lemma_occurs_in_longer(before: Seq<char>, after: Seq<char>, text: Seq<char>, at: int)
    requires
        occurs_at(before, text, at),
        before.is_prefix_of(after),
    ensures
        occurs_at(after, text, at),
{
    assert(after.subrange(at, at + text.len()) =~= before.subrange(at, at + text.len()));
}

proof fn lemma_still_shown(
    before: Seq<MessageView>,
    after: Seq<MessageView>,
    entries: Seq<HistoryEntry>,
    i: int,
    bot_id: Seq<char>,
    histories: Seq<HistoryView>,
    place: Place,
)
    requires
        continued(before, after),
        shown_in(before, entries, i, bot_id, histories, place),
    ensures
        shown_in(after, entries, i, bot_id, histories, place),
{
    let entry = entries[i];
    let m = place.message;
    if m < before.len() - 1 {
        assert(after[m] == before[m]);
    } else if entry.message.sender_id@ == bot_id {
        let text = match entry.message.content_text {
            Some(content) => content@,
            None => Seq::empty(),
        };
        lemma_occurs_in_longer(
            before[m]->Assistant_content.unwrap(),
            after[m]->Assistant_content.unwrap(),
            text,
            place.start,
        );
    } else {
        let text = entry_text(entry, date_before(entries, i as nat, bot_id, histories));
        let old_parts = before[m]->User_content;
        let new_parts = after[m]->User_content;
        if place.part < old_parts.len() - 1 {
            assert(new_parts[place.part] == old_parts[place.part]);
        } else {
            lemma_occurs_in_longer(
                old_parts[place.part]->Text_0,
                new_parts[place.part]->Text_0,
                text,
                place.start,
            );
        }
        assert forall|k: int| 0 <= k < entry.images@.len() implies new_parts[place.part + 1 + k]
            == PartView::Image((#[trigger] entry.images@[k])@) by {
            assert(old_parts[place.part + 1 + k] == PartView::Image(entry.images@[k]@));
            if place.part + 1 + k < old_parts.len() - 1 {
                assert(new_parts[place.part + 1 + k] == old_parts[place.part + 1 + k]);
            }
        }
    }
}

proof fn lemma_with_images(parts: Seq<PartView>, images: Seq<String>)
    ensures
        with_images(parts, images).len() == parts.len() + images.len(),
        forall|k: int|
            0 <= k < parts.len() ==> #[trigger] with_images(parts, images)[k] == parts[k],
        forall|k: int|
            0 <= k < images.len() ==> with_images(parts, images)[parts.len() + k]
                == PartView::Image((#[trigger] images[k])@),
    decreases images.len(),
{
    if images.len() > 0 {
        lemma_with_images(parts, images.drop_last());
        assert forall|k: int| 0 <= k < images.len() implies with_images(parts, images)[parts.len()
            + k] == PartView::Image((#[trigger] images[k])@) by {
            if k < images.len() - 1 {
                assert(images.drop_last()[k] == images[k]);
            }
        }
    }
}

proof fn lemma_with_text(parts: Seq<PartView>, text: Seq<char>)
    ensures
        continued_parts(parts, with_text(parts, text)),
        with_text(parts, text).last() is Text,
        ({
            let whole = with_text(parts, text).last()->Text_0;
            whole.len() >= text.len() && whole.subrange(whole.len() - text.len(), whole.len() as int)
                == text
        }),
        parts.len() <= with_text(parts, text).len() <= parts.len() + 1,
        with_text(parts, text).len() == parts.len() ==> parts.last() is Text
            && with_text(parts, text).last()->Text_0 == parts.last()->Text_0 + text,
        with_text(parts, text).len() > 0,
{
    let whole = with_text(parts, text).last()->Text_0;
    assert(whole.subrange(whole.len() - text.len(), whole.len() as int) =~= text);
}

/// Somebody else's line stands in the context with its images behind it, behind all that stood
/// there before.
proof fn lemma_user_line(
    context: Seq<MessageView>,
    last_date: Option<Seq<char>>,
    entry: HistoryEntry,
    line: Seq<char>,
    new_block: bool,
) -> (place: Place)
    ensures
        ({
            let after = with_user_line(
                context,
                last_date,
                entry.date@,
                line,
                entry.images@,
                new_block,
            );
            let text = if last_date == Some(entry.date@) {
                line
            } else {
                entry.date@ + "\n"@ + line
            };
            &&& continued(context, after)
            &&& said_by_user(after, place, text, entry.images@)
            &&& place.message >= context.len() - 1
            &&& place.message == context.len() - 1 ==> context.last() is User && (
            context.last()->User_content.len() > 0 ==> place.part
                >= context.last()->User_content.len() - 1 && (place.part
                == context.last()->User_content.len() - 1 ==> (
            context.last()->User_content.last() matches PartView::Text(old_text) && place.start
                >= old_text.len())))
        }),
{
    let after = with_user_line(context, last_date, entry.date@, line, entry.images@, new_block);
    let dated = last_date != Some(entry.date@);
    let text = if dated {
        entry.date@ + "\n"@ + line
    } else {
        line
    };
    reveal_strlit("\n");
    if context.len() > 0 && context.last() is User && !new_block {
        let parts = context.last()->User_content;
        let headed = if dated {
            with_text(parts, "\n"@ + entry.date@)
        } else {
            parts
        };
        let full = with_text(headed, "\n"@ + line);
        if dated {
            lemma_with_text(parts, "\n"@ + entry.date@);
        }
        lemma_with_text(headed, "\n"@ + line);
        lemma_with_images(full, entry.images@);
        let whole = full.last()->Text_0;
        let place = Place {
            message: context.len() - 1,
            part: full.len() - 1,
            start: whole.len() - text.len(),
        };
        if dated {
            let above = headed.last()->Text_0;
            assert(full.len() == headed.len());
            assert(whole == above + ("\n"@ + line));
            assert(above.len() >= 1 + entry.date@.len());
            assert(whole.subrange(place.start, whole.len() as int) =~= text) by {
                let tail = above.subrange(above.len() - (1 + entry.date@.len()), above.len() as int);
                assert(tail == "\n"@ + entry.date@);
                assert forall|k: int| 0 <= k < entry.date@.len() implies above[above.len()
                    - entry.date@.len() + k] == entry.date@[k] by {
                    assert(tail[1 + k] == entry.date@[k]);
                }
            }
        } else {
            let tail = whole.subrange(whole.len() - (1 + line.len()), whole.len() as int);
            assert(tail == "\n"@ + line);
            assert(whole.subrange(place.start, whole.len() as int) =~= text) by {
                assert forall|k: int| 0 <= k < line.len() implies whole[whole.len() - line.len()
                    + k] == line[k] by {
                    assert(tail[1 + k] == line[k]);
                }
            }
        }
        let shown = with_images(full, entry.images@);
        assert(after.last() == MessageView::User { content: shown });
        assert(continued_parts(parts, full));
        assert(continued_parts(parts, shown));
        place
    } else {
        let parts = seq![PartView::Text(text)];
        lemma_with_images(parts, entry.images@);
        assert(after.last() == MessageView::User { content: with_images(parts, entry.images@) });
        assert(text.subrange(0, text.len() as int) =~= text);
        if context.len() > 0 {
            lemma_continued_self(context.last());
        }
        Place { message: context.len() as int, part: 0, start: 0 }
    }
}

proof fn lemma_continued_self(message: MessageView)
    ensures
        continued_message(message, message),
{
}

proof fn lemma_assistant_line(
    context: Seq<MessageView>,
    text: Seq<char>,
    new_block: bool,
) -> (place: Place)
    ensures
        ({
            let after = with_assistant_line(context, text, new_block);
            &&& continued(context, after)
            &&& said_by_assistant(after, place, text)
            &&& place.message >= context.len() - 1
            &&& place.message == context.len() - 1 ==> (
            context.last() matches MessageView::Assistant {
                content: Some(said),
                reasoning,
                tool_calls,
            } && place.start >= said.len())
        }),
{
    reveal_strlit("\n");
    let after = with_assistant_line(context, text, new_block);
    if context.len() > 0 {
        lemma_continued_self(context.last());
    }
    if after.len() == context.len() {
        let said = context.last()->Assistant_content.unwrap();
        let whole = said + "\n"@ + text;
        assert(whole.subrange(said.len() as int + 1, whole.len() as int) =~= text);
        Place { message: context.len() - 1, part: 0, start: said.len() as int + 1 }
    } else {
        assert(text.subrange(0, text.len() as int) =~= text);
        Place { message: context.len() as int, part: 0, start: 0 }
    }
}

proof fn lemma_appended(before: Seq<MessageView>, after: Seq<MessageView>)
    requires
        before.is_prefix_of(after),
    ensures
        continued(before, after),
{
    if before.len() > 0 {
        lemma_continued_self(before.last());
        assert(after[before.len() - 1] == before.last());
    }
}

proof fn lemma_date_before(
    head: Seq<MessageView>,
    entries: Seq<HistoryEntry>,
    n: nat,
    block_size: int,
    bot_id: Seq<char>,
    state: StateView,
)
    requires
        n <= entries.len(),
    ensures
        layout_of(head, entries, n, block_size, bot_id, state).last_date == date_before(
            entries,
            n,
            bot_id,
            state.histories,
        ),
    decreases n,
{
    if n > 0 {
        lemma_date_before(head, entries, (n - 1) as nat, block_size, bot_id, state);
    }
}

/// The context behind which an entry is laid out, and the one with its line.
spec fn line_added(
    before: LayoutView,
    entry: HistoryEntry,
    index: int,
    block_size: int,
    bot_id: Seq<char>,
    state: StateView,
) -> Seq<MessageView> {
    if suppressed_by(state.histories, entry.message.id) {
        before.context
    } else {
        with_message(
            before,
            entry,
            bot_id,
            begins_block(before, state, index, block_size),
        ).context
    }
}

proof fn lemma_all_shown(
    head: Seq<MessageView>,
    entries: Seq<HistoryEntry>,
    n: nat,
    block_size: int,
    bot_id: Seq<char>,
    state: StateView,
) -> (places: Seq<Place>)
    requires
        n <= entries.len(),
    ensures
        all_shown_in(
            layout_of(head, entries, n, block_size, bot_id, state).context,
            entries,
            n,
            bot_id,
            state.histories,
            places,
        ),
    decreases n,
{
    let histories = state.histories;
    if n == 0 {
        Seq::empty()
    } else {
        let m = (n - 1) as nat;
        let places = lemma_all_shown(head, entries, m, block_size, bot_id, state);
        lemma_date_before(head, entries, m, block_size, bot_id, state);
        let before = layout_of(head, entries, m, block_size, bot_id, state);
        let after = layout_of(head, entries, n, block_size, bot_id, state);
        let entry = entries[m as int];
        let new_block = begins_block(before, state, m as int, block_size);
        let lined = line_added(before, entry, m as int, block_size, bot_id, state);
        assert(after.context == lined + exchanges_behind(histories, Some(entry.message.id)));
        assert(lined.is_prefix_of(after.context));
        lemma_appended(lined, after.context);
        let place = if left_out(histories, entry) {
            lemma_appended(before.context, lined);
            Place { message: 0, part: 0, start: 0 }
        } else if entry.message.sender_id@ == bot_id {
            lemma_assistant_line(
                before.context,
                match entry.message.content_text {
                    Some(content) => content@,
                    None => Seq::empty(),
                },
                new_block,
            )
        } else {
            let name = match entry.message.sender_nickname {
                Some(nickname) => nickname@,
                None => entry.message.sender_display_name@,
            };
            let text = match entry.message.content_text {
                Some(content) => content@,
                None => Seq::empty(),
            };
            lemma_user_line(
                before.context,
                before.last_date,
                entry,
                name + "（"@ + entry.time@ + "）:"@ + text,
                new_block,
            )
        };
        let all = places.push(place);
        assert forall|i: int| 0 <= i < n && !left_out(histories, entries[i]) implies shown_in(
            after.context,
            entries,
            i,
            bot_id,
            histories,
            #[trigger] all[i],
        ) by {
            if i < m {
                assert(all[i] == places[i]);
                lemma_still_shown(
                    before.context,
                    lined,
                    entries,
                    i,
                    bot_id,
                    histories,
                    places[i],
                );
                lemma_still_shown(lined, after.context, entries, i, bot_id, histories, places[i]);
            } else {
                assert(shown_in(lined, entries, i, bot_id, histories, place));
                lemma_still_shown(lined, after.context, entries, i, bot_id, histories, place);
            }
        }
        assert forall|i: int, j: int|
            0 <= i < j < n && !left_out(histories, entries[i]) && !left_out(
                histories,
                entries[j],
            ) implies lies_behind(
            #[trigger] all[j],
            #[trigger] all[i],
            shown_length(entries, i, bot_id, histories),
        ) by {
            assert(all[i] == places[i]);
            if j < m {
                assert(all[j] == places[j]);
            } else {
                assert(shown_in(before.context, entries, i, bot_id, histories, places[i]));
            }
        }
        all
    }
}

/// Every message of the history that no tool exchange shows in its place stands in the context: what
/// somebody else wrote, with name, time, text and images, in what the user says, and what the
/// assistant wrote in what the assistant says. They stand in the order of the history, and the date
/// stands before the first message of each run of messages of the same day.
pub proof fn law_every_message_is_shown(
    system_prompt: Seq<char>,
    entries: Seq<HistoryEntry>,
    block_size: int,
    bot_id: Seq<char>,
    state: StateView,
    transient: Option<Seq<char>>,
    instruction: Seq<char>,
)
    ensures
        exists|places: Seq<Place>| #[trigger]
            all_shown_in(
                full_context(
                    system_prompt,
                    entries,
                    block_size,
                    bot_id,
                    state,
                    transient,
                    instruction,
                ),
                entries,
                entries.len(),
                bot_id,
                state.histories,
                places,
            ),
{
    let histories = state.histories;
    let head = context_head(system_prompt, histories);
    let laid = layout_of(head, entries, entries.len(), block_size, bot_id, state).context;
    let full = full_context(
        system_prompt,
        entries,
        block_size,
        bot_id,
        state,
        transient,
        instruction,
    );
    let places = lemma_all_shown(head, entries, entries.len(), block_size, bot_id, state);
    assert(laid.is_prefix_of(full));
    lemma_appended(laid, full);
    assert forall|i: int|
        0 <= i < entries.len() && !left_out(histories, entries[i]) implies shown_in(
        full,
        entries,
        i,
        bot_id,
        histories,
        #[trigger] places[i],
    ) by {
        lemma_still_shown(laid, full, entries, i, bot_id, histories, places[i]);
    }
    assert(all_shown_in(full, entries, entries.len(), bot_id, histories, places));
}

/// The texts of pieces, one behind the other.
pub open spec fn parts_text(parts: Seq<PartView>) -> Seq<char>
    decreases parts.len(),
{
    if parts.len() == 0 {
        Seq::empty()
    } else {
        match parts.last() {
            PartView::Text(text) => parts_text(parts.drop_last()) + text,
            PartView::Image(_) => parts_text(parts.drop_last()),
        }
    }
}

/// The images among pieces.
pub open spec fn parts_images(parts: Seq<PartView>) -> Seq<Seq<char>>
    decreases parts.len(),
{
    if parts.len() == 0 {
        Seq::empty()
    } else {
        match parts.last() {
            PartView::Image(url) => parts_images(parts.drop_last()).push(url),
            PartView::Text(_) => parts_images(parts.drop_last()),
        }
    }
}

/// What a message says.
pub open spec fn message_text(message: MessageView) -> Seq<char> {
    match message {
        MessageView::System { content } => content,
        MessageView::User { content } => parts_text(content),
        MessageView::Assistant { content: Some(text), reasoning, tool_calls } => text,
        MessageView::Assistant { content: None, reasoning, tool_calls } => Seq::empty(),
        MessageView::Tool { tool_call_id, content } => content,
    }
}

/// The images in a message.
pub open spec fn message_images(message: MessageView) -> Seq<Seq<char>> {
    match message {
        MessageView::User { content } => parts_images(content),
        _ => Seq::empty(),
    }
}

proof fn lemma_parts_with_text(parts: Seq<PartView>, text: Seq<char>)
    ensures
        parts_text(with_text(parts, text)) =~= parts_text(parts) + text,
        parts_images(with_text(parts, text)) =~= parts_images(parts),
{
    let r = with_text(parts, text);
    if parts.len() > 0 && parts.last() is Text {
        assert(r.drop_last() =~= parts.drop_last());
    } else {
        assert(r.drop_last() =~= parts);
    }
}

proof fn lemma_parts_with_images(parts: Seq<PartView>, images: Seq<String>)
    ensures
        parts_text(with_images(parts, images)) =~= parts_text(parts),
        parts_images(with_images(parts, images)) =~= parts_images(parts) + Seq::new(
            images.len(),
            |k: int| images[k]@,
        ),
    decreases images.len(),
{
    if images.len() > 0 {
        lemma_parts_with_images(parts, images.drop_last());
        let r = with_images(parts, images);
        assert(r.drop_last() =~= with_images(parts, images.drop_last()));
        assert(Seq::new(images.len(), |k: int| images[k]@) =~= Seq::new(
            images.drop_last().len(),
            |k: int| images.drop_last()[k]@,
        ).push(images.last()@));
    }
}

/// A message of the history is added to a context once and adds nothing else. What somebody else
/// wrote continues the last message, on a line of its own, where that is one of a user and no block
/// begins, and otherwise makes a message of a user; its images come behind it. All messages before
/// the last one stay as they are, and the last one only grows.
pub proof fn law_a_message_adds_only_its_line(
    before: LayoutView,
    entry: HistoryEntry,
    bot_id: Seq<char>,
    new_block: bool,
)
    requires
        entry.message.sender_id@ != bot_id,
    ensures
        ({
            let context = before.context;
            let after = with_message(before, entry, bot_id, new_block).context;
            let joins = !new_block && context.len() > 0 && context.last() is User;
            let added = entry_text(entry, before.last_date);
            let images = Seq::new(entry.images@.len(), |k: int| entry.images@[k]@);
            &&& after.len() == context.len() + if joins {
                0int
            } else {
                1
            }
            &&& forall|k: int|
                0 <= k < after.len() - 1 ==> #[trigger] after[k] == context[k]
            &&& after.last() is User
            &&& message_text(after.last()) == if joins {
                message_text(context.last()) + "\n"@ + added
            } else {
                added
            }
            &&& message_images(after.last()) == if joins {
                message_images(context.last()) + images
            } else {
                images
            }
            &&& with_message(before, entry, bot_id, new_block).last_date == Some(entry.date@)
        }),
{
    let context = before.context;
    let after = with_message(before, entry, bot_id, new_block).context;
    let images = Seq::new(entry.images@.len(), |k: int| entry.images@[k]@);
    let name = match entry.message.sender_nickname {
        Some(nickname) => nickname@,
        None => entry.message.sender_display_name@,
    };
    let text = match entry.message.content_text {
        Some(content) => content@,
        None => Seq::empty(),
    };
    let line = name + "（"@ + entry.time@ + "）:"@ + text;
    let dated = before.last_date != Some(entry.date@);
    if !new_block && context.len() > 0 && context.last() is User {
        let parts = context.last()->User_content;
        let headed = if dated {
            with_text(parts, "\n"@ + entry.date@)
        } else {
            parts
        };
        lemma_parts_with_text(parts, "\n"@ + entry.date@);
        lemma_parts_with_text(headed, "\n"@ + line);
        lemma_parts_with_images(with_text(headed, "\n"@ + line), entry.images@);
        assert(message_text(after.last()) =~= message_text(context.last()) + "\n"@ + entry_text(
            entry,
            before.last_date,
        ));
    } else {
        let parts = seq![PartView::Text(entry_text(entry, before.last_date))];
        lemma_parts_with_images(parts, entry.images@);
        assert(parts.drop_last() =~= Seq::empty());
        assert(parts_text(parts.drop_last()) =~= Seq::empty());
        assert(parts_images(parts.drop_last()) =~= Seq::empty());
        assert(parts_text(parts) =~= entry_text(entry, before.last_date));
        assert(parts_images(parts) =~= Seq::empty());
        assert(Seq::<Seq<char>>::empty() + images =~= images);
    }
}

/// What the assistant wrote is added to a context once and adds nothing else: it continues the last
/// message, on a line of its own, where that is one of the assistant with a text and without calls
/// and no block begins, and otherwise makes a message of the assistant.
pub proof fn law_an_own_message_adds_only_its_text(
    before: LayoutView,
    entry: HistoryEntry,
    bot_id: Seq<char>,
    new_block: bool,
)
    requires
        entry.message.sender_id@ == bot_id,
    ensures
        ({
            let context = before.context;
            let after = with_message(before, entry, bot_id, new_block).context;
            let text = match entry.message.content_text {
                Some(content) => content@,
                None => Seq::empty(),
            };
            let joins = !new_block && context.len() > 0 && context.last() is Assistant
                && context.last()->Assistant_content is Some
                && context.last()->Assistant_tool_calls.len() == 0;
            &&& after.len() == context.len() + if joins {
                0int
            } else {
                1
            }
            &&& forall|k: int|
                0 <= k < after.len() - 1 ==> #[trigger] after[k] == context[k]
            &&& after.last() is Assistant
            &&& after.last()->Assistant_tool_calls.len() == 0
            &&& after.last()->Assistant_content == Some(
                if joins {
                    message_text(context.last()) + "\n"@ + text
                } else {
                    text
                },
            )
            &&& after.last()->Assistant_reasoning == if joins {
                context.last()->Assistant_reasoning
            } else {
                None
            }
            &&& with_message(before, entry, bot_id, new_block).last_date == before.last_date
            &&& with_message(before, entry, bot_id, new_block).unread == before.unread
        }),
{
}

/// Whether a message is one of a tool exchange.
spec fn of_exchange(message: MessageView) -> bool {
    message is Tool || (message is Assistant && message->Assistant_tool_calls.len() > 0)
}

proof fn lemma_exchange_stays(
    before: Seq<MessageView>,
    after: Seq<MessageView>,
    at: int,
    messages: Seq<MessageView>,
)
    requires
        continued(before, after),
        0 <= at,
        at + messages.len() <= before.len(),
        before.subrange(at, at + messages.len()) == messages,
        forall|k: int| 0 <= k < messages.len() ==> of_exchange(#[trigger] messages[k]),
    ensures
        after.subrange(at, at + messages.len()) == messages,
{
    assert forall|k: int| 0 <= k < messages.len() implies after[at + k] == messages[k] by {
        assert(before.subrange(at, at + messages.len())[k] == before[at + k]);
        assert(of_exchange(messages[k]));
        if at + k < before.len() - 1 {
            assert(after[at + k] == before[at + k]);
        }
    }
    assert(after.subrange(at, at + messages.len()) =~= messages);
}

/// The messages of a round: what the assistant called, and what came back.
pub open spec fn round_messages(round: RoundView) -> Seq<MessageView> {
    seq![round.assistant] + round.results
}

proof fn lemma_round_in_rounds(rounds: Seq<RoundView>, r: int) -> (at: int)
    requires
        0 <= r < rounds.len(),
    ensures
        0 <= at,
        at + round_messages(rounds[r]).len() <= rounds_messages(
            rounds,
        ).len(),
        rounds_messages(rounds).subrange(
            at,
            at + round_messages(rounds[r]).len(),
        ) == round_messages(rounds[r]),
    decreases rounds.len(),
{
    let all = rounds_messages(rounds);
    let front = rounds_messages(rounds.drop_last());
    let messages = round_messages(rounds[r]);
    if r == rounds.len() - 1 {
        let at = front.len() as int;
        assert(all.subrange(at, at + messages.len()) =~= messages);
        at
    } else {
        let at = lemma_round_in_rounds(rounds.drop_last(), r);
        assert(all.subrange(at, at + messages.len()) =~= front.subrange(
            at,
            at + messages.len(),
        ));
        at
    }
}

proof fn lemma_round_behind(
    histories: Seq<HistoryView>,
    anchor: Option<i64>,
    h: int,
    r: int,
) -> (at: int)
    requires
        0 <= h < histories.len(),
        histories[h].anchor == anchor,
        0 <= r < histories[h].rounds.len(),
    ensures
        0 <= at,
        at + round_messages(histories[h].rounds[r]).len() <= exchanges_behind(
            histories,
            anchor,
        ).len(),
        exchanges_behind(histories, anchor).subrange(
            at,
            at + round_messages(histories[h].rounds[r]).len(),
        ) == round_messages(histories[h].rounds[r]),
    decreases histories.len(),
{
    let all = exchanges_behind(histories, anchor);
    let front = exchanges_behind(histories.drop_last(), anchor);
    let messages = round_messages(histories[h].rounds[r]);
    if h == histories.len() - 1 {
        let at = lemma_round_in_rounds(histories[h].rounds, r);
        let inner = rounds_messages(histories[h].rounds);
        assert(all.subrange(front.len() + at, front.len() + at + messages.len()) =~= inner.subrange(
            at,
            at + messages.len(),
        ));
        front.len() + at
    } else {
        let at = lemma_round_behind(histories.drop_last(), anchor, h, r);
        assert(all.subrange(at, at + messages.len()) =~= front.subrange(
            at,
            at + messages.len(),
        ));
        at
    }
}

proof fn lemma_valid_round(round: RoundView)
    requires
        round.valid(),
    ensures
        forall|k: int|
            0 <= k < round_messages(round).len() ==> of_exchange(
                #[trigger] round_messages(round)[k],
            ),
{
    lemma_all_results(round.results);
    assert forall|k: int| 0 <= k < round_messages(round).len() implies of_exchange(
        #[trigger] round_messages(round)[k],
    ) by {
        if k > 0 {
            assert(round_messages(round)[k] == round.results[k - 1]);
        }
    }
}

proof fn lemma_entry_continues(
    before: LayoutView,
    entry: HistoryEntry,
    index: int,
    block_size: int,
    bot_id: Seq<char>,
    state: StateView,
)
    ensures
        continued(
            before.context,
            with_entry(before, entry, index, block_size, bot_id, state).context,
        ),
{
    let lined = line_added(before, entry, index, block_size, bot_id, state);
    let after = with_entry(before, entry, index, block_size, bot_id, state).context;
    let new_block = begins_block(before, state, index, block_size);
    let text = match entry.message.content_text {
        Some(content) => content@,
        None => Seq::empty(),
    };
    if suppressed_by(state.histories, entry.message.id) {
        lemma_appended(before.context, lined);
    } else if entry.message.sender_id@ == bot_id {
        let _ = lemma_assistant_line(before.context, text, new_block);
    } else {
        let name = match entry.message.sender_nickname {
            Some(nickname) => nickname@,
            None => entry.message.sender_display_name@,
        };
        let _ = lemma_user_line(
            before.context,
            before.last_date,
            entry,
            name + "（"@ + entry.time@ + "）:"@ + text,
            new_block,
        );
    }
    assert(after == lined + exchanges_behind(state.histories, Some(entry.message.id)));
    if before.context.len() > 0 && before.context.len() <= lined.len() {
        assert(after[before.context.len() - 1] == lined[before.context.len() - 1]);
    }
    assert forall|k: int| 0 <= k < before.context.len() - 1 implies #[trigger] after[k]
        == before.context[k] by {
        assert(lined[k] == before.context[k]);
    }
}

proof fn lemma_exchange_kept(
    head: Seq<MessageView>,
    entries: Seq<HistoryEntry>,
    from: nat,
    n: nat,
    block_size: int,
    bot_id: Seq<char>,
    state: StateView,
    at: int,
    messages: Seq<MessageView>,
)
    requires
        from <= n <= entries.len(),
        0 <= at,
        at + messages.len() <= layout_of(
            head,
            entries,
            from,
            block_size,
            bot_id,
            state,
        ).context.len(),
        layout_of(head, entries, from, block_size, bot_id, state).context.subrange(
            at,
            at + messages.len(),
        ) == messages,
        forall|k: int| 0 <= k < messages.len() ==> of_exchange(#[trigger] messages[k]),
    ensures
        at + messages.len() <= layout_of(head, entries, n, block_size, bot_id, state).context.len(),
        layout_of(head, entries, n, block_size, bot_id, state).context.subrange(
            at,
            at + messages.len(),
        ) == messages,
    decreases n,
{
    if from < n {
        let m = (n - 1) as nat;
        lemma_exchange_kept(
            head,
            entries,
            from,
            m,
            block_size,
            bot_id,
            state,
            at,
            messages,
        );
        let before = layout_of(head, entries, m, block_size, bot_id, state);
        let after = layout_of(head, entries, n, block_size, bot_id, state);
        lemma_entry_continues(before, entries[m as int], m as int, block_size, bot_id, state);
        lemma_exchange_stays(before.context, after.context, at, messages);
    }
}

/// Whether messages stand in a context one behind the other, from `at` on.
pub open spec fn stand_at(
    context: Seq<MessageView>,
    messages: Seq<MessageView>,
    at: int,
) -> bool {
    0 <= at && at + messages.len() <= context.len() && context.subrange(at, at + messages.len())
        == messages
}

/// Every tool exchange that is kept stands in the context unchanged, the calls and right behind them
/// their results: behind the message to which it belongs, or at the beginning where it belongs to
/// none.
pub proof fn law_tool_exchanges_are_shown(
    system_prompt: Seq<char>,
    entries: Seq<HistoryEntry>,
    block_size: int,
    bot_id: Seq<char>,
    state: StateView,
    transient: Option<Seq<char>>,
    instruction: Seq<char>,
    h: int,
    r: int,
)
    requires
        0 <= h < state.histories.len(),
        0 <= r < state.histories[h].rounds.len(),
        state.histories[h].rounds[r].valid(),
        state.histories[h].anchor matches Some(id) ==> exists|i: int|
            0 <= i < entries.len() && (#[trigger] entries[i]).message.id == id,
    ensures
        ({
            let context = full_context(
                system_prompt,
                entries,
                block_size,
                bot_id,
                state,
                transient,
                instruction,
            );
            let round = state.histories[h].rounds[r];
            exists|at: int|
                #![trigger stand_at(context, seq![round.assistant] + round.results, at)]
                stand_at(context, seq![round.assistant] + round.results, at)
        }),
{
    let histories = state.histories;
    let round = histories[h].rounds[r];
    let messages = round_messages(round);
    let anchor = histories[h].anchor;
    let head = context_head(system_prompt, histories);
    let n = entries.len();
    lemma_valid_round(round);
    let inner = lemma_round_behind(histories, anchor, h, r);
    let behind = exchanges_behind(histories, anchor);
    let (from, start) = match anchor {
        Some(id) => {
            let i = choose|i: int| 0 <= i < entries.len() && (#[trigger] entries[i]).message.id == id;
            let before = layout_of(head, entries, i as nat, block_size, bot_id, state);
            let lined = line_added(before, entries[i], i, block_size, bot_id, state);
            let after = layout_of(head, entries, (i + 1) as nat, block_size, bot_id, state);
            assert(after.context == lined + behind);
            ((i + 1) as nat, lined.len() as int)
        },
        None => (0nat, 2int),
    };
    let base = layout_of(head, entries, from, block_size, bot_id, state).context;
    let at = start + inner;
    assert(base.subrange(at, at + messages.len()) =~= behind.subrange(
        inner,
        inner + messages.len(),
    )) by {
        assert(base.subrange(start, start + behind.len()) =~= behind);
    }
    lemma_exchange_kept(head, entries, from, n, block_size, bot_id, state, at, messages);
    let laid = layout_of(head, entries, n, block_size, bot_id, state).context;
    let full = full_context(
        system_prompt,
        entries,
        block_size,
        bot_id,
        state,
        transient,
        instruction,
    );
    assert(full.subrange(at, at + messages.len()) =~= laid.subrange(at, at + messages.len()));
    assert(stand_at(full, seq![round.assistant] + round.results, at));
}

/// Behind the history a context holds the passing prompt, where there is one, as a message of the
/// user of its own, and then the instructions; it takes nothing of the history away.
pub proof fn law_prompts_stand_at_the_end(
    system_prompt: Seq<char>,
    entries: Seq<HistoryEntry>,
    block_size: int,
    bot_id: Seq<char>,
    state: StateView,
    prompt: Seq<char>,
    instruction: Seq<char>,
)
    ensures
        ({
            let with = full_context(
                system_prompt,
                entries,
                block_size,
                bot_id,
                state,
                Some(prompt),
                instruction,
            );
            let without = full_context(
                system_prompt,
                entries,
                block_size,
                bot_id,
                state,
                None,
                instruction,
            );
            &&& with.len() == without.len() + 1
            &&& with.take(without.len() - 1) == without.drop_last()
            &&& with[without.len() - 1] == (MessageView::User {
                content: seq![PartView::Text(prompt)],
            })
            &&& with.last() == (MessageView::System { content: instruction })
            &&& without.last() == (MessageView::System { content: instruction })
        }),
{
    let with = full_context(
        system_prompt,
        entries,
        block_size,
        bot_id,
        state,
        Some(prompt),
        instruction,
    );
    let without = full_context(
        system_prompt,
        entries,
        block_size,
        bot_id,
        state,
        None,
        instruction,
    );
    assert(with.take(without.len() - 1) =~= without.drop_last());
}

/// Whether somebody else's message among the first `n` entries was read, or was not.
pub open spec fn any_among(
    entries: Seq<HistoryEntry>,
    n: nat,
    bot_id: Seq<char>,
    read: bool,
) -> bool {
    exists|j: int|
        0 <= j < n && (#[trigger] entries[j]).message.sender_id@ != bot_id
            && entries[j].message.is_read == read
}

/// The date of the last of the first `n` entries that is somebody else's.
pub open spec fn plain_date_before(
    entries: Seq<HistoryEntry>,
    n: nat,
    bot_id: Seq<char>,
) -> Option<Seq<char>>
    decreases n,
{
    if n == 0 {
        None
    } else if entries[n - 1].message.sender_id@ != bot_id {
        Some(entries[n - 1].date@)
    } else {
        plain_date_before(entries, (n - 1) as nat, bot_id)
    }
}

/// What a worker's context says for an entry: its text for the assistant; for somebody else the line
/// with name, time and text, behind the date where it is another than before, and behind the line
/// between read and unread messages where the entry is the first unread one and others were read.
pub open spec fn plain_text(entries: Seq<HistoryEntry>, i: int, bot_id: Seq<char>) -> Seq<char> {
    let entry = entries[i];
    if entry.message.sender_id@ == bot_id {
        match entry.message.content_text {
            Some(content) => content@,
            None => Seq::empty(),
        }
    } else {
        let text = entry_text(entry, plain_date_before(entries, i as nat, bot_id));
        if !entry.message.is_read && !any_among(entries, i as nat, bot_id, false) && any_among(
            entries,
            i as nat,
            bot_id,
            true,
        ) {
            UNREAD_DIVIDER@ + "\n"@ + text
        } else {
            text
        }
    }
}

/// Whether entries stand in a worker's context at places: entry `i` in the message `at[i].0` from the
/// position `at[i].1` on, the assistant's in messages of their own, and each behind those before it.
pub open spec fn plainly_shown(
    context: Seq<ContextMessageView>,
    entries: Seq<HistoryEntry>,
    n: nat,
    bot_id: Seq<char>,
    at: Seq<(int, int)>,
) -> bool {
    &&& at.len() == n
    &&& forall|i: int|
        0 <= i < n ==> plainly_shown_at(context, entries, i, bot_id, #[trigger] at[i])
    &&& forall|i: int, j: int|
        0 <= i < j < n ==> (#[trigger] at[i]).0 < (#[trigger] at[j]).0 || (at[i].0 == at[j].0
            && at[i].1 + plain_text(entries, i, bot_id).len() <= at[j].1)
}

/// Whether an entry stands in a worker's context at a place.
pub open spec fn plainly_shown_at(
    context: Seq<ContextMessageView>,
    entries: Seq<HistoryEntry>,
    i: int,
    bot_id: Seq<char>,
    at: (int, int),
) -> bool {
    &&& 0 <= at.0 < context.len()
    &&& if entries[i].message.sender_id@ == bot_id {
        at.1 == 0 && context[at.0] == (ContextMessageView {
            role: MessageRole::Assistant,
            content: plain_text(entries, i, bot_id),
        })
    } else {
        context[at.0].role == MessageRole::User && occurs_at(
            context[at.0].content,
            plain_text(entries, i, bot_id),
            at.1,
        )
    }
}

/// Whether a context is continued: no message changes but the last, and that only grows where it is
/// one of the user.
spec fn plainly_continued(
    before: Seq<ContextMessageView>,
    after: Seq<ContextMessageView>,
) -> bool {
    &&& before.len() <= after.len()
    &&& forall|k: int| 0 <= k < before.len() - 1 ==> #[trigger] after[k] == before[k]
    &&& before.len() > 0 ==> {
        let a = before.last();
        let b = after[before.len() - 1];
        a == b || (a.role == MessageRole::User && b.role == MessageRole::User
            && a.content.is_prefix_of(b.content))
    }
}

proof fn lemma_user_text(context: Seq<ContextMessageView>, text: Seq<char>) -> (at: (int, int))
    ensures
        ({
            let after = with_user_text(context, text);
            &&& plainly_continued(context, after)
            &&& at.0 == after.len() - 1
            &&& after.last().role == MessageRole::User
            &&& after.last().content.len() == at.1 + text.len()
            &&& occurs_at(after.last().content, text, at.1)
            &&& at.0 == context.len() - 1 ==> context.last().role == MessageRole::User && at.1
                >= context.last().content.len()
            &&& at.0 >= context.len() - 1
        }),
{
    let after = with_user_text(context, text);
    if context.len() > 0 && context.last().role == MessageRole::User {
        let front = context.last().content + "\n"@;
        lemma_occurs_at_end(front, text);
        (context.len() - 1, front.len() as int)
    } else {
        assert(text.subrange(0, text.len() as int) =~= text);
        (context.len() as int, 0)
    }
}

proof fn lemma_plain_entry(
    layout: PlainLayout,
    entries: Seq<HistoryEntry>,
    i: int,
    bot_id: Seq<char>,
) -> (at: (int, int))
    requires
        0 <= i < entries.len(),
        layout.last_date == plain_date_before(entries, i as nat, bot_id),
        layout.read_seen == any_among(entries, i as nat, bot_id, true),
        layout.unread_seen == any_among(entries, i as nat, bot_id, false),
    ensures
        ({
            let after = with_plain_entry(layout, entries[i], bot_id);
            let n = (i + 1) as nat;
            &&& plainly_continued(layout.context, after.context)
            &&& plainly_shown_at(after.context, entries, i, bot_id, at)
            &&& at.0 >= layout.context.len() - 1
            &&& at.0 == layout.context.len() - 1 ==> layout.context.last().role
                == MessageRole::User && at.1 >= layout.context.last().content.len()
            &&& after.last_date == plain_date_before(entries, n, bot_id)
            &&& after.read_seen == any_among(entries, n, bot_id, true)
            &&& after.unread_seen == any_among(entries, n, bot_id, false)
        }),
{
    let entry = entries[i];
    let after = with_plain_entry(layout, entry, bot_id);
    let n = (i + 1) as nat;
    assert(any_among(entries, n, bot_id, true) == (any_among(entries, i as nat, bot_id, true) || (
    entry.message.sender_id@ != bot_id && entry.message.is_read))) by {
        if any_among(entries, i as nat, bot_id, true) {
            let j = choose|j: int|
                0 <= j < i && (#[trigger] entries[j]).message.sender_id@ != bot_id
                    && entries[j].message.is_read == true;
            assert(entries[j].message.sender_id@ != bot_id);
        }
    }
    assert(any_among(entries, n, bot_id, false) == (any_among(entries, i as nat, bot_id, false) || (
    entry.message.sender_id@ != bot_id && !entry.message.is_read))) by {
        if any_among(entries, i as nat, bot_id, false) {
            let j = choose|j: int|
                0 <= j < i && (#[trigger] entries[j]).message.sender_id@ != bot_id
                    && entries[j].message.is_read == false;
            assert(entries[j].message.sender_id@ != bot_id);
        }
    }
    if entry.message.sender_id@ == bot_id {
        (layout.context.len() as int, 0)
    } else {
        let text = entry_text(entry, layout.last_date);
        let draws = !entry.message.is_read && !layout.unread_seen && layout.read_seen;
        if draws {
            let first = lemma_user_text(layout.context, UNREAD_DIVIDER@);
            let divided = with_user_text(layout.context, UNREAD_DIVIDER@);
            let _ = lemma_user_text(divided, text);
            let whole = after.context.last().content;
            assert(whole == divided.last().content + "\n"@ + text);
            let both = UNREAD_DIVIDER@ + "\n"@ + text;
            assert(whole.subrange(first.1, first.1 + both.len()) =~= both) by {
                assert(divided.last().content.subrange(first.1, first.1 + UNREAD_DIVIDER@.len())
                    == UNREAD_DIVIDER@);
                assert forall|k: int| 0 <= k < UNREAD_DIVIDER@.len() implies whole[first.1 + k]
                    == UNREAD_DIVIDER@[k] by {
                    assert(divided.last().content.subrange(
                        first.1,
                        first.1 + UNREAD_DIVIDER@.len(),
                    )[k] == divided.last().content[first.1 + k]);
                }
            }
            assert(after.context.drop_last() =~= divided.drop_last());
            first
        } else {
            lemma_user_text(layout.context, text)
        }
    }
}

proof fn lemma_plainly_shown(
    head: Seq<ContextMessageView>,
    entries: Seq<HistoryEntry>,
    n: nat,
    bot_id: Seq<char>,
) -> (at: Seq<(int, int)>)
    requires
        n <= entries.len(),
    ensures
        ({
            let layout = plain_layout(head, entries, n, bot_id);
            &&& plainly_shown(layout.context, entries, n, bot_id, at)
            &&& layout.last_date == plain_date_before(entries, n, bot_id)
            &&& layout.read_seen == any_among(entries, n, bot_id, true)
            &&& layout.unread_seen == any_among(entries, n, bot_id, false)
        }),
    decreases n,
{
    if n == 0 {
        Seq::empty()
    } else {
        let m = (n - 1) as nat;
        let front = lemma_plainly_shown(head, entries, m, bot_id);
        let before = plain_layout(head, entries, m, bot_id);
        let after = plain_layout(head, entries, n, bot_id);
        let place = lemma_plain_entry(before, entries, m as int, bot_id);
        let at = front.push(place);
        assert forall|i: int| 0 <= i < n implies plainly_shown_at(
            after.context,
            entries,
            i,
            bot_id,
            #[trigger] at[i],
        ) by {
            if i < m {
                assert(at[i] == front[i]);
                lemma_plainly_stays(before.context, after.context, entries, i, bot_id, front[i]);
            }
        }
        assert forall|i: int, j: int| 0 <= i < j < n implies (#[trigger] at[i]).0 < (
        #[trigger] at[j]).0 || (at[i].0 == at[j].0 && at[i].1 + plain_text(
            entries,
            i,
            bot_id,
        ).len() <= at[j].1) by {
            assert(at[i] == front[i]);
            if j < m {
                assert(at[j] == front[j]);
            } else {
                assert(plainly_shown_at(before.context, entries, i, bot_id, front[i]));
            }
        }
        at
    }
}

proof fn lemma_plainly_stays(
    before: Seq<ContextMessageView>,
    after: Seq<ContextMessageView>,
    entries: Seq<HistoryEntry>,
    i: int,
    bot_id: Seq<char>,
    at: (int, int),
)
    requires
        plainly_continued(before, after),
        plainly_shown_at(before, entries, i, bot_id, at),
    ensures
        plainly_shown_at(after, entries, i, bot_id, at),
{
    if at.0 < before.len() - 1 {
        assert(after[at.0] == before[at.0]);
    } else if entries[i].message.sender_id@ != bot_id && after[at.0] != before[at.0] {
        lemma_occurs_in_longer(
            before[at.0].content,
            after[at.0].content,
            plain_text(entries, i, bot_id),
            at.1,
        );
    }
}

/// Every message of the history stands in a worker's context: what somebody else wrote with name,
/// time and text in what the user says, and what the assistant wrote as a message of the assistant.
/// They stand in the order of the history, the date stands before the first message of each run of
/// messages of the same day, and a line is drawn before the first unread message where others were
/// read.
pub proof fn law_a_worker_sees_every_message(
    system_prompt: Seq<char>,
    character_prompt: Seq<char>,
    entries: Seq<HistoryEntry>,
    bot_id: Seq<char>,
    instruction: ContextMessageView,
)
    ensures
        exists|at: Seq<(int, int)>| #[trigger]
            plainly_shown(
                plain_layout(
                    plain_head(system_prompt, character_prompt),
                    entries,
                    entries.len(),
                    bot_id,
                ).context.push(instruction),
                entries,
                entries.len(),
                bot_id,
                at,
            ),
{
    let head = plain_head(system_prompt, character_prompt);
    let at = lemma_plainly_shown(head, entries, entries.len(), bot_id);
    let laid = plain_layout(head, entries, entries.len(), bot_id).context;
    let full = laid.push(instruction);
    assert(plainly_continued(laid, full));
    assert forall|i: int| 0 <= i < entries.len() implies plainly_shown_at(
        full,
        entries,
        i,
        bot_id,
        #[trigger] at[i],
    ) by {
        lemma_plainly_stays(laid, full, entries, i, bot_id, at[i]);
    }
    assert(plainly_shown(full, entries, entries.len(), bot_id, at));
}

} // verus!
