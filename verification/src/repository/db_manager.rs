//! Conversations and messages as they are stored.

use vstd::prelude::*;

use crate::history_compression::NewConversationDailySummary;
use crate::json::{
    is_text, items_view, json_parsed, json_written, law_a_put_field_is_read_back, object2,
    option_text, parse_json, put_field, write_json, Fields, Items, Json, JsonView,
};
use crate::text::{
    contains_text, has_text, law_the_first_is_replaced, occurs_at, replace, replace_of, same_text,
};
use crate::transport::{conversation_kind_as_str, kind_word, ContentPart, IncomingMessage};

verus! {

/// Where the database lies.
pub const DATABASE_PATH: &'static str = "data/test_chat.db";

/// The directory of what the program keeps.
pub const DATA_DIRECTORY: &'static str = "data";

/// The number of a stored message.
#[derive(Debug, Clone, Copy, PartialEq, Eq, Structural)]
pub struct StoredMessage {
    pub id: i64,
}

/// What a reset deleted.
#[derive(Debug, Clone, Copy, PartialEq, Eq, Structural)]
pub struct ResetConversationResult {
    pub deleted_messages: usize,
    pub deleted_daily_summaries: usize,
}

/// A conversation in the directory.
#[derive(Debug, PartialEq, Eq)]
pub struct ConversationRecord {
    pub id: i64,
    pub source: String,
    pub source_conversation_id: String,
    pub kind: String,
    pub title: Option<String>,
    pub metadata_json: String,
    pub created_at: i64,
    pub last_message_at: i64,
}

/// A conversation in a list, with its latest message.
#[derive(Debug, PartialEq, Eq)]
pub struct AdminConversationSummary {
    pub conversation: ConversationRecord,
    pub latest_sender_name: Option<String>,
    pub latest_content: Option<String>,
    pub latest_message_at: Option<i64>,
    pub unread_count: u64,
}

/// How much is stored.
#[derive(Debug, Clone, Copy, PartialEq, Eq, Structural)]
pub struct AdminDatabaseStats {
    pub conversations: u64,
    pub group_conversations: u64,
    pub direct_conversations: u64,
    pub messages_today: u64,
    pub user_memories: u64,
    pub character_memories: u64,
    pub scheduled_tasks: u64,
}

/// A stored message.
#[derive(Debug, PartialEq, Eq)]
pub struct ChatMessage {
    pub id: i64,
    pub conversation_id: i64,
    pub source: String,
    pub source_conversation_id: String,
    pub conversation_kind: String,
    pub source_message_id: Option<String>,
    pub sender_id: String,
    pub sender_display_name: String,
    pub sender_nickname: Option<String>,
    pub sender_role: Option<String>,
    pub content_text: Option<String>,
    pub message_type: String,
    /// The pieces of the message, as the text of a JSON document.
    pub content_parts_json: String,
    pub metadata_json: String,
    pub is_read: bool,
    pub event_timestamp: i64,
    pub created_at: i64,
}

/// The messages that a request uses, and how many of them make a block.
#[derive(Debug, PartialEq, Eq)]
pub struct ConversationHistoryWindow {
    pub messages: Vec<ChatMessage>,
    pub history_block_size: usize,
}

/// A message that another one refers to.
#[derive(Debug, PartialEq, Eq)]
pub struct ReferencedMessage {
    pub sender_display_name: String,
    pub content_text: Option<String>,
}

/// A message to store.
#[derive(Debug, PartialEq, Eq)]
pub struct NewChatMessage {
    pub source: String,
    pub source_conversation_id: String,
    pub conversation_kind: String,
    pub conversation_title: Option<String>,
    pub conversation_metadata_json: String,
    pub source_message_id: Option<String>,
    pub sender_id: String,
    pub sender_display_name: String,
    pub sender_nickname: Option<String>,
    pub sender_role: Option<String>,
    pub content_text: String,
    pub message_type: String,
    pub content_parts_json: String,
    pub metadata_json: String,
    pub event_timestamp: i64,
}

/// A stored image.
#[derive(Debug, PartialEq, Eq)]
pub struct ReceivedImageRecord {
    pub image_id: String,
    pub content_hash: String,
    pub local_path: String,
    pub description: String,
}

/// Where a stored image lies.
#[derive(Debug, PartialEq, Eq)]
pub struct AdminImageResource {
    pub local_path: String,
    pub mime_type: Option<String>,
}

/// An image to store.
#[derive(Debug, PartialEq, Eq)]
pub struct NewReceivedImage {
    pub image_id: String,
    pub content_hash: String,
    pub local_path: String,
    pub original_url: Option<String>,
    pub mime_type: Option<String>,
    pub file_size: i64,
    pub description: String,
    pub metadata_json: String,
}

/// How many messages make a block of the history.
pub open spec fn block_size_of(max_history_messages: nat) -> nat {
    if max_history_messages / 5 < 1 {
        1
    } else {
        max_history_messages / 5
    }
}

/// How many messages make a block of the history.
pub fn history_block_size(max_history_messages: u32) -> (r: usize)
    ensures
        r == block_size_of(max_history_messages as nat),
        r >= 1,
{
    let size: u32 = max_history_messages / 5;
    if size < 1 {
        1
    } else {
        size as usize
    }
}

/// How many old messages are left out: whole blocks, as few as make the rest fit.
pub open spec fn block_offset_of(total: int, max: int, block: int) -> int {
    if total <= max {
        0
    } else {
        ((total - max - 1) / block + 1) * block
    }
}

/// How many old messages are left out: whole blocks, as few as make the rest fit.
pub fn history_block_offset(
    total_message_count: i64,
    max_history_messages: i64,
    history_block_size: i64,
) -> (r: i64)
    requires
        0 <= total_message_count,
        0 <= max_history_messages,
        1 <= history_block_size,
        total_message_count + history_block_size <= i64::MAX,
    ensures
        r == block_offset_of(
            total_message_count as int,
            max_history_messages as int,
            history_block_size as int,
        ),
{
    if total_message_count <= max_history_messages {
        return 0;
    }
    let overflow: i64 = total_message_count - max_history_messages;
    let dropped_blocks: i64 = ((overflow - 1) / history_block_size) + 1;
    proof {
        let a = overflow - 1;
        let b = history_block_size as int;
        vstd::arithmetic::div_mod::lemma_fundamental_div_mod(a, b);
        assert(a / b * b <= a) by (nonlinear_arith)
            requires
                a >= 0,
                b >= 1,
                a == b * (a / b) + a % b,
                0 <= a % b,
        ;
        assert((a / b + 1) * b == a / b * b + b) by (nonlinear_arith);
        assert((a / b + 1) * b >= 0) by (nonlinear_arith)
            requires
                a >= 0,
                b >= 1,
        ;
    }
    dropped_blocks * history_block_size
}

/// The history window holds whole blocks less, never more than it may, and no full block less
/// than it could.
pub proof fn law_window_drops_whole_blocks(total: int, max: int, block: int)
    requires
        0 <= total,
        0 <= max,
        1 <= block,
    ensures
        block_offset_of(total, max, block) % block == 0,
        total - block_offset_of(total, max, block) <= max,
        total > max ==> total - block_offset_of(total, max, block) > max - block,
        block_offset_of(total, max, block) >= 0,
{
    if total > max {
        let a = total - max - 1;
        vstd::arithmetic::div_mod::lemma_fundamental_div_mod(a, block);
        let q = a / block;
        assert((q + 1) * block == block * q + block) by (nonlinear_arith);
        vstd::arithmetic::div_mod::lemma_mod_multiples_basic(q + 1, block);
        assert(q >= 0) by (nonlinear_arith)
            requires
                a >= 0,
                block >= 1,
                q == a / block,
        ;
        assert(block * q >= 0) by (nonlinear_arith)
            requires
                q >= 0,
                block >= 1,
        ;
    } else {
        assert(0int % block == 0) by (nonlinear_arith)
            requires
                block >= 1,
        ;
    }
}

/// As messages come in one by one, the start of the window stands still or moves by one block.
pub proof fn law_window_moves_by_blocks(total: int, max: int, block: int)
    requires
        0 <= total,
        0 <= max,
        1 <= block,
    ensures
        block_offset_of(total + 1, max, block) == block_offset_of(total, max, block)
            || block_offset_of(total + 1, max, block) == block_offset_of(total, max, block) + block,
{
    if total < max {
    } else if total == max {
        assert(0int / block == 0) by (nonlinear_arith)
            requires
                block >= 1,
        ;
        assert((0int / block + 1) * block == block) by (nonlinear_arith)
            requires
                0int / block == 0,
        ;
    } else {
        let a = total - max - 1;
        vstd::arithmetic::div_mod::lemma_fundamental_div_mod(a, block);
        vstd::arithmetic::div_mod::lemma_fundamental_div_mod(a + 1, block);
        let p = a / block;
        let q = (a + 1) / block;
        assert(q == p || q == p + 1) by (nonlinear_arith)
            requires
                a == block * p + a % block,
                a + 1 == block * q + (a + 1) % block,
                0 <= a % block < block,
                0 <= (a + 1) % block < block,
                block >= 1,
        ;
        assert((p + 1 + 1) * block == (p + 1) * block + block) by (nonlinear_arith);
    }
}

/// A text, where it is not empty.
pub open spec fn nonempty_text(value: Option<Seq<char>>) -> Option<Seq<char>> {
    match value {
        Some(t) => if t.len() == 0 {
            None
        } else {
            Some(t)
        },
        None => None,
    }
}

/// A text, where it is not empty.
pub fn normalize_optional_text(value: &Option<String>) -> (r: Option<String>)
    ensures
        option_text(r) == nonempty_text(option_text(*value)),
{
    match value {
        Some(t) => {
            if t.is_empty() {
                None
            } else {
                Some(t.clone())
            }
        },
        None => None,
    }
}

/// A piece of a message as it is stored.
pub open spec fn stored_part(part: ContentPart) -> JsonView {
    object2("kind"@, JsonView::Text(part.kind@), "data"@, part.data@)
}

/// The pieces of a message as they are stored.
pub open spec fn stored_parts(parts: Seq<ContentPart>) -> JsonView {
    JsonView::Array(Seq::new(parts.len(), |i: int| stored_part(parts[i])))
}

/// The pieces of a message as they are stored.
pub fn parts_to_json(parts: &Vec<ContentPart>) -> (r: Json)
    ensures
        r@ == stored_parts(parts@),
{
    let ghost listed = Seq::new(parts@.len(), |i: int| stored_part(parts@[i]));
    let mut items = Items::new();
    let mut i: usize = 0;
    while i < parts.len()
        invariant
            i <= parts@.len(),
            listed == Seq::new(parts@.len(), |i: int| stored_part(parts@[i])),
            items@ == listed.take(i as int),
        decreases parts@.len() - i,
    {
        let mut fields = Fields::new();
        fields.put_text("kind", &parts[i].kind);
        fields.put("data", parts[i].data.copy());
        items.push(fields.done());
        assert(listed.take(i + 1) =~= listed.take(i as int).push(listed[i as int]));
        i += 1;
    }
    assert(listed.take(i as int) =~= listed);
    items.done()
}

/// The kind of a message: that of its first piece, or plain text.
pub open spec fn message_type_of(parts: Seq<ContentPart>) -> Seq<char> {
    if parts.len() == 0 {
        "text"@
    } else {
        parts[0].kind@
    }
}

/// The message to store for one that came in.
pub fn new_message_from_incoming(message: &IncomingMessage) -> (r: NewChatMessage)
    ensures
        r.source@ == message.source@,
        r.source_conversation_id@ == message.conversation.id@,
        r.conversation_kind@ == kind_word(message.conversation.kind),
        r.conversation_title == message.conversation.title,
        r.conversation_metadata_json@ == "{}"@,
        r.source_message_id == message.message_id,
        r.sender_id@ == message.sender.id@,
        r.sender_display_name@ == message.sender.display_name@,
        r.sender_nickname == message.sender.nickname,
        r.sender_role == message.sender.role,
        r.content_text@ == message.content.text@,
        r.message_type@ == message_type_of(message.content.parts@),
        r.content_parts_json@ == json_written(stored_parts(message.content.parts@)),
        r.metadata_json@ == json_written(message.metadata@),
        r.event_timestamp == message.timestamp,
{
    let message_type = if message.content.parts.len() == 0 {
        "text".to_owned()
    } else {
        message.content.parts[0].kind.clone()
    };
    let parts = parts_to_json(&message.content.parts);
    NewChatMessage {
        source: message.source.clone(),
        source_conversation_id: message.conversation.id.clone(),
        conversation_kind: conversation_kind_as_str(message.conversation.kind).to_owned(),
        conversation_title: message.conversation.title.clone(),
        conversation_metadata_json: "{}".to_owned(),
        source_message_id: message.message_id.clone(),
        sender_id: message.sender.id.clone(),
        sender_display_name: message.sender.display_name.clone(),
        sender_nickname: message.sender.nickname.clone(),
        sender_role: message.sender.role.clone(),
        content_text: message.content.text.clone(),
        message_type,
        content_parts_json: write_json(&parts),
        metadata_json: write_json(&message.metadata),
        event_timestamp: message.timestamp,
    }
}

/// A conversation as its directory entry holds it, after a message came in.
pub struct DirectoryView {
    pub id: i64,
    pub source: Seq<char>,
    pub source_conversation_id: Seq<char>,
    pub kind: Seq<char>,
    pub title: Option<Seq<char>>,
    pub metadata_json: Seq<char>,
    pub created_at: i64,
    pub last_message_at: i64,
}

/// What a directory entry holds.
pub open spec fn directory_view(record: ConversationRecord) -> DirectoryView {
    DirectoryView {
        id: record.id,
        source: record.source@,
        source_conversation_id: record.source_conversation_id@,
        kind: record.kind@,
        title: option_text(record.title),
        metadata_json: record.metadata_json@,
        created_at: record.created_at,
        last_message_at: record.last_message_at,
    }
}

/// A directory entry after a message: the given one changed, or a new one with the number
/// `new_id`. A title is not lost, empty metadata changes nothing, and the time of the last message
/// never goes back.
pub open spec fn directory_after(
    existing: Option<DirectoryView>,
    new_id: i64,
    message: NewChatMessage,
    now: i64,
) -> DirectoryView {
    let given = nonempty_text(option_text(message.conversation_title));
    match existing {
        None => DirectoryView {
            id: new_id,
            source: message.source@,
            source_conversation_id: message.source_conversation_id@,
            kind: message.conversation_kind@,
            title: given,
            metadata_json: message.conversation_metadata_json@,
            created_at: now,
            last_message_at: message.event_timestamp,
        },
        Some(old_entry) => DirectoryView {
            kind: message.conversation_kind@,
            title: match given {
                Some(t) => Some(t),
                None => old_entry.title,
            },
            metadata_json: if message.conversation_metadata_json@ == "{}"@ {
                old_entry.metadata_json
            } else {
                message.conversation_metadata_json@
            },
            last_message_at: if message.event_timestamp > old_entry.last_message_at {
                message.event_timestamp
            } else {
                old_entry.last_message_at
            },
            ..old_entry
        },
    }
}

/// What an optional directory entry holds.
pub open spec fn option_directory(record: Option<ConversationRecord>) -> Option<DirectoryView> {
    match record {
        Some(r) => Some(directory_view(r)),
        None => None,
    }
}

/// The directory entry of a conversation after a message: the given one changed, or a new one with
/// the number `new_id`.
pub fn upsert_conversation(
    existing: Option<ConversationRecord>,
    new_id: i64,
    message: &NewChatMessage,
    now_timestamp: i64,
) -> (r: ConversationRecord)
    ensures
        directory_view(r) == directory_after(
            option_directory(existing),
            new_id,
            *message,
            now_timestamp,
        ),
{
    let given = normalize_optional_text(&message.conversation_title);
    match existing {
        None => ConversationRecord {
            id: new_id,
            source: message.source.clone(),
            source_conversation_id: message.source_conversation_id.clone(),
            kind: message.conversation_kind.clone(),
            title: given,
            metadata_json: message.conversation_metadata_json.clone(),
            created_at: now_timestamp,
            last_message_at: message.event_timestamp,
        },
        Some(entry) => {
            let title = match given {
                Some(t) => Some(t),
                None => entry.title,
            };
            let metadata_json = if same_text(&message.conversation_metadata_json, "{}") {
                entry.metadata_json
            } else {
                message.conversation_metadata_json.clone()
            };
            let last_message_at: i64 = if message.event_timestamp > entry.last_message_at {
                message.event_timestamp
            } else {
                entry.last_message_at
            };
            ConversationRecord {
                id: entry.id,
                source: entry.source,
                source_conversation_id: entry.source_conversation_id,
                kind: message.conversation_kind.clone(),
                title,
                metadata_json,
                created_at: entry.created_at,
                last_message_at,
            }
        },
    }
}

/// Whether a row holds a message of a conversation as it is written: unread, and without the texts
/// that are empty.
pub open spec fn is_row_of(
    row: ChatMessage,
    conversation: ConversationRecord,
    message: NewChatMessage,
    id: i64,
    now_timestamp: i64,
) -> bool {
    &&& row.id == id
    &&& row.conversation_id == conversation.id
    &&& row.source@ == conversation.source@
    &&& row.source_conversation_id@ == conversation.source_conversation_id@
    &&& row.conversation_kind@ == conversation.kind@
    &&& option_text(row.source_message_id) == nonempty_text(option_text(message.source_message_id))
    &&& row.sender_id@ == message.sender_id@
    &&& row.sender_display_name@ == message.sender_display_name@
    &&& option_text(row.sender_nickname) == nonempty_text(option_text(message.sender_nickname))
    &&& option_text(row.sender_role) == nonempty_text(option_text(message.sender_role))
    &&& option_text(row.content_text) == Some(message.content_text@)
    &&& row.message_type@ == message.message_type@
    &&& row.content_parts_json@ == message.content_parts_json@
    &&& row.metadata_json@ == message.metadata_json@
    &&& !row.is_read
    &&& row.event_timestamp == message.event_timestamp
    &&& row.created_at == now_timestamp
}

/// Whether rows hold a message of a conversation under the number that the platform gave it. A
/// message without such a number is never known.
pub open spec fn holds_message(
    rows: Seq<ChatMessage>,
    conversation_id: i64,
    source_message_id: Option<Seq<char>>,
) -> bool {
    source_message_id is Some && exists|i: int|
        0 <= i < rows.len() && (#[trigger] rows[i]).conversation_id == conversation_id
            && option_text(rows[i].source_message_id) == source_message_id
}

/// A message that is known and was to be written nevertheless.
#[derive(Debug, Clone, Copy, PartialEq, Eq)]
pub struct DuplicateMessage;

/// Whether rows hold a message of a conversation under the number that the platform gave it.
fn message_is_held(
    rows: &Vec<ChatMessage>,
    conversation_id: i64,
    source_message_id: &Option<String>,
) -> (r: bool)
    ensures
        r == holds_message(rows@, conversation_id, option_text(*source_message_id)),
{
    let wanted = match source_message_id {
        Some(text) => text,
        None => return false,
    };
    let mut i: usize = 0;
    while i < rows.len()
        invariant
            i <= rows@.len(),
            option_text(*source_message_id) == Some(wanted@),
            forall|j: int|
                0 <= j < i ==> !((#[trigger] rows@[j]).conversation_id == conversation_id
                    && option_text(rows@[j].source_message_id) == option_text(*source_message_id)),
        decreases rows@.len() - i,
    {
        let found = match &rows[i].source_message_id {
            Some(text) => rows[i].conversation_id == conversation_id && same_text(text, wanted),
            None => false,
        };
        if found {
            assert(rows@[i as int].conversation_id == conversation_id);
            return true;
        }
        i += 1;
    }
    false
}

/// Writes a message behind the rows of a conversation under the number `id`. One that is known is
/// left out where only new ones are wanted, and refused otherwise.
pub fn write_message(
    rows: &mut Vec<ChatMessage>,
    conversation: &ConversationRecord,
    message: &NewChatMessage,
    id: i64,
    now_timestamp: i64,
    if_new: bool,
) -> (r: Result<Option<StoredMessage>, DuplicateMessage>)
    ensures
        if holds_message(
            old(rows)@,
            conversation.id,
            nonempty_text(option_text(message.source_message_id)),
        ) {
            final(rows)@ == old(rows)@ && if if_new {
                r == Ok::<Option<StoredMessage>, DuplicateMessage>(None)
            } else {
                r == Err::<Option<StoredMessage>, DuplicateMessage>(DuplicateMessage)
            }
        } else {
            r == Ok::<Option<StoredMessage>, DuplicateMessage>(Some(StoredMessage { id }))
                && final(rows)@.len() == old(rows)@.len() + 1 && final(rows)@.drop_last() == old(
                rows,
            )@ && is_row_of(final(rows)@.last(), *conversation, *message, id, now_timestamp)
        },
{
    let source_message_id = normalize_optional_text(&message.source_message_id);
    if message_is_held(rows, conversation.id, &source_message_id) {
        return if if_new {
            Ok(None)
        } else {
            Err(DuplicateMessage)
        };
    }
    let ghost before = rows@;
    rows.push(
        ChatMessage {
            id,
            conversation_id: conversation.id,
            source: conversation.source.clone(),
            source_conversation_id: conversation.source_conversation_id.clone(),
            conversation_kind: conversation.kind.clone(),
            source_message_id,
            sender_id: message.sender_id.clone(),
            sender_display_name: message.sender_display_name.clone(),
            sender_nickname: normalize_optional_text(&message.sender_nickname),
            sender_role: normalize_optional_text(&message.sender_role),
            content_text: Some(message.content_text.clone()),
            message_type: message.message_type.clone(),
            content_parts_json: message.content_parts_json.clone(),
            metadata_json: message.metadata_json.clone(),
            is_read: false,
            event_timestamp: message.event_timestamp,
            created_at: now_timestamp,
        },
    );
    assert(rows@.drop_last() =~= before);
    Ok(Some(StoredMessage { id }))
}

/// Whether no two rows of a conversation hold a message of the same number.
pub open spec fn kept_once(rows: Seq<ChatMessage>) -> bool {
    forall|i: int, j: int|
        #![trigger rows[i], rows[j]]
        0 <= i < j < rows.len() && rows[i].conversation_id == rows[j].conversation_id && option_text(
            rows[i].source_message_id,
        ) is Some ==> option_text(rows[i].source_message_id) != option_text(
            rows[j].source_message_id,
        )
}

/// A message that comes in again is kept once: its first row makes it known, which is unread, and
/// no row is added to rows that hold every message once so that one stands there twice.
pub proof fn law_messages_are_kept_once(
    rows: Seq<ChatMessage>,
    row: ChatMessage,
    conversation: ConversationRecord,
    message: NewChatMessage,
    id: i64,
    now_timestamp: i64,
)
    requires
        is_row_of(row, conversation, message, id, now_timestamp),
        kept_once(rows),
        !holds_message(
            rows,
            conversation.id,
            nonempty_text(option_text(message.source_message_id)),
        ),
    ensures
        kept_once(rows.push(row)),
        nonempty_text(option_text(message.source_message_id)) is Some ==> holds_message(
            rows.push(row),
            conversation.id,
            nonempty_text(option_text(message.source_message_id)),
        ),
        !rows.push(row).last().is_read,
{
    let after = rows.push(row);
    assert(after[rows.len() as int] == row);
    assert forall|i: int, j: int|
        #![trigger after[i], after[j]]
        0 <= i < j < after.len() && after[i].conversation_id == after[j].conversation_id
            && option_text(after[i].source_message_id) is Some implies option_text(
        after[i].source_message_id,
    ) != option_text(after[j].source_message_id) by {
        assert(after[i] == rows[i]);
        if j < rows.len() {
            assert(after[j] == rows[j]);
        }
    }
}

/// The messages that belong to other conversations.
pub open spec fn messages_elsewhere(rows: Seq<ChatMessage>, conversation_id: i64) -> Seq<
    ChatMessage,
>
    decreases rows.len(),
{
    if rows.len() == 0 {
        Seq::empty()
    } else {
        let before = messages_elsewhere(rows.drop_last(), conversation_id);
        if rows.last().conversation_id == conversation_id {
            before
        } else {
            before.push(rows.last())
        }
    }
}

/// The summaries that belong to other conversations.
pub open spec fn summaries_elsewhere(
    rows: Seq<NewConversationDailySummary>,
    conversation_id: i64,
) -> Seq<NewConversationDailySummary>
    decreases rows.len(),
{
    if rows.len() == 0 {
        Seq::empty()
    } else {
        let before = summaries_elsewhere(rows.drop_last(), conversation_id);
        if rows.last().conversation_id == conversation_id {
            before
        } else {
            before.push(rows.last())
        }
    }
}

/// Forgets what was said in a conversation: its messages and summaries go, and it stands as if
/// nothing had been said since it began.
pub fn reset_conversation_history(
    conversation: &mut ConversationRecord,
    messages: &mut Vec<ChatMessage>,
    summaries: &mut Vec<NewConversationDailySummary>,
) -> (r: ResetConversationResult)
    ensures
        *final(conversation) == (ConversationRecord {
            last_message_at: old(conversation).created_at,
            ..*old(conversation)
        }),
        final(messages)@ == messages_elsewhere(old(messages)@, old(conversation).id),
        final(summaries)@ == summaries_elsewhere(old(summaries)@, old(conversation).id),
        r.deleted_messages == old(messages)@.len() - final(messages)@.len(),
        r.deleted_daily_summaries == old(summaries)@.len() - final(summaries)@.len(),
{
    let id: i64 = conversation.id;
    let ghost all = messages@;
    let mut rest: Vec<ChatMessage> = Vec::new();
    std::mem::swap(&mut rest, messages);
    let message_count: usize = rest.len();
    let ghost mut done: int = 0;
    assert(all.take(0) =~= Seq::empty());
    while rest.len() > 0
        invariant
            0 <= done <= all.len(),
            rest@ == all.skip(done),
            messages@ == messages_elsewhere(all.take(done), id),
            messages@.len() <= done,
        decreases rest@.len(),
    {
        let row = rest.remove(0);
        proof {
            assert(row == all[done]);
            assert(all.take(done + 1).drop_last() =~= all.take(done));
            assert(rest@ =~= all.skip(done + 1));
            done = done + 1;
        }
        if row.conversation_id != id {
            messages.push(row);
        }
    }
    assert(all.take(done) =~= all);
    let ghost all_summaries = summaries@;
    let mut rest: Vec<NewConversationDailySummary> = Vec::new();
    std::mem::swap(&mut rest, summaries);
    let summary_count: usize = rest.len();
    let ghost mut done: int = 0;
    assert(all_summaries.take(0) =~= Seq::empty());
    while rest.len() > 0
        invariant
            0 <= done <= all_summaries.len(),
            rest@ == all_summaries.skip(done),
            summaries@ == summaries_elsewhere(all_summaries.take(done), id),
            summaries@.len() <= done,
        decreases rest@.len(),
    {
        let row = rest.remove(0);
        proof {
            assert(row == all_summaries[done]);
            assert(all_summaries.take(done + 1).drop_last() =~= all_summaries.take(done));
            assert(rest@ =~= all_summaries.skip(done + 1));
            done = done + 1;
        }
        if row.conversation_id != id {
            summaries.push(row);
        }
    }
    assert(all_summaries.take(done) =~= all_summaries);
    conversation.last_message_at = conversation.created_at;
    ResetConversationResult {
        deleted_messages: message_count - messages.len(),
        deleted_daily_summaries: summary_count - summaries.len(),
    }
}

/// Forgetting a conversation leaves none of its messages, and all messages of the others.
pub proof fn law_reset_spares_other_conversations(rows: Seq<ChatMessage>, conversation_id: i64)
    ensures
        forall|i: int|
            0 <= i < messages_elsewhere(rows, conversation_id).len() ==> (
            #[trigger] messages_elsewhere(rows, conversation_id)[i]).conversation_id
                != conversation_id,
        forall|i: int|
            0 <= i < rows.len() && (#[trigger] rows[i]).conversation_id != conversation_id
                ==> messages_elsewhere(rows, conversation_id).contains(rows[i]),
    decreases rows.len(),
{
    if rows.len() > 0 {
        let front = rows.drop_last();
        law_reset_spares_other_conversations(front, conversation_id);
        let before = messages_elsewhere(front, conversation_id);
        let after = messages_elsewhere(rows, conversation_id);
        assert forall|i: int|
            0 <= i < rows.len() && (#[trigger] rows[i]).conversation_id
                != conversation_id implies after.contains(rows[i]) by {
            if i < front.len() {
                assert(front[i] == rows[i]);
                let k = choose|k: int| 0 <= k < before.len() && before[k] == rows[i];
                assert(after[k] == rows[i]);
            } else {
                assert(after[after.len() - 1] == rows[i]);
            }
        }
    }
}

/// The place that an image without a description takes in a text.
pub open spec fn image_placeholder_of(image_id: Seq<char>) -> Seq<char> {
    "![图片](attachment://"@ + image_id + ")"@
}

/// The place that an image without a description takes in a text.
pub fn image_placeholder(image_id: &str) -> (r: String)
    ensures
        r@ == image_placeholder_of(image_id@),
{
    let mut r = "![图片](attachment://".to_owned();
    r.push_str(image_id);
    r.push_str(")");
    r
}

/// The text for an image once it is described: its place is filled, and what stands around it is
/// kept.
pub open spec fn described_context(
    previous: Seq<char>,
    image_id: Seq<char>,
    described: Seq<char>,
) -> Seq<char> {
    if has_text(previous, image_placeholder_of(image_id)) {
        replace_of(previous, image_placeholder_of(image_id), described)
    } else {
        described
    }
}

/// The text for an image once it is described.
pub fn image_context_with_description(
    previous_context: &str,
    image_id: &str,
    described_text: &str,
) -> (r: String)
    ensures
        r@ == described_context(previous_context@, image_id@, described_text@),
{
    let placeholder = image_placeholder(image_id);
    if contains_text(previous_context, &placeholder) {
        replace(previous_context, &placeholder, described_text)
    } else {
        described_text.to_owned()
    }
}

/// What a description changes.
pub struct Described {
    pub image_id: Seq<char>,
    pub description: Seq<char>,
    pub described: Seq<char>,
}

/// Whether a piece is the image in question.
pub open spec fn shows_image(part: JsonView, image_id: Seq<char>) -> bool {
    part.text_field("kind"@) == Some("image"@) && (part.field("data"@) matches Some(data) && data is
        Object && data.text_field("image_id"@) == Some(image_id))
}

/// The text that a piece has for its image.
pub open spec fn part_context(part: JsonView, image_id: Seq<char>) -> Seq<char> {
    match part.field("data"@) {
        Some(data) => match data.text_field("context_text"@) {
            Some(text) => text,
            None => image_placeholder_of(image_id),
        },
        None => image_placeholder_of(image_id),
    }
}

/// A piece with the description of its image.
pub open spec fn described_part(part: JsonView, change: Described) -> JsonView {
    if shows_image(part, change.image_id) {
        let data = part.field("data"@).unwrap()->Object_0;
        let next = described_context(
            part_context(part, change.image_id),
            change.image_id,
            change.described,
        );
        JsonView::Object(
            put_field(
                part->Object_0,
                "data"@,
                JsonView::Object(
                    put_field(
                        put_field(data, "description"@, JsonView::Text(change.description)),
                        "context_text"@,
                        JsonView::Text(next),
                    ),
                ),
            ),
        )
    } else {
        part
    }
}

/// Whether any piece is the image in question.
pub open spec fn any_shows(parts: Seq<JsonView>, image_id: Seq<char>) -> bool {
    exists|i: int| 0 <= i < parts.len() && shows_image(#[trigger] parts[i], image_id)
}

/// A text with the description of the image, piece by piece.
pub open spec fn described_text_of(
    text: Seq<char>,
    parts: Seq<JsonView>,
    change: Described,
) -> Seq<char>
    decreases parts.len(),
{
    if parts.len() == 0 {
        text
    } else {
        let front = described_text_of(text, parts.drop_last(), change);
        let part = parts.last();
        if shows_image(part, change.image_id) {
            let previous = part_context(part, change.image_id);
            replace_of(
                front,
                previous,
                described_context(previous, change.image_id, change.described),
            )
        } else {
            front
        }
    }
}

/// The pieces with the description of the image.
pub open spec fn described_parts(parts: Seq<JsonView>, change: Described) -> Seq<JsonView> {
    Seq::new(parts.len(), |i: int| described_part(parts[i], change))
}

/// A message after the description of an image: nothing where the image is not in it.
pub open spec fn described_message(
    text: Option<Seq<char>>,
    parts: JsonView,
    change: Described,
) -> Option<(Option<Seq<char>>, JsonView)> {
    match parts {
        JsonView::Array(list) => if any_shows(list, change.image_id) {
            Some(
                (
                    match text {
                        Some(t) => Some(described_text_of(t, list, change)),
                        None => None,
                    },
                    JsonView::Array(described_parts(list, change)),
                ),
            )
        } else {
            None
        },
        _ => None,
    }
}

/// The text that a piece has for the image, where it is the image in question.
fn shown_context(part: &Json, image_id: &str) -> (r: Option<String>)
    ensures
        match r {
            Some(previous) => shows_image(part@, image_id@) && previous@ == part_context(
                part@,
                image_id@,
            ),
            None => !shows_image(part@, image_id@),
        },
{
    let kind = part.text_at("kind");
    if !is_text(&kind, "image") {
        return None;
    }
    let data = match part.get("data") {
        Some(data) => data,
        None => {
            return None;
        },
    };
    match data {
        Json::Object(_) => {},
        _ => {
            return None;
        },
    }
    let id = data.text_at("image_id");
    if !is_text(&id, image_id) {
        return None;
    }
    match data.text_at("context_text") {
        Some(text) => Some(text),
        None => Some(image_placeholder(image_id)),
    }
}

/// A message after the description of an image: nothing where the image is not in it.
pub fn describe_image_in_message(
    content_text: &Option<String>,
    parts: &Json,
    image_id: &str,
    description: &str,
    described_text: &str,
) -> (r: Option<(Option<String>, Json)>)
    ensures
        ({
            let change = Described {
                image_id: image_id@,
                description: description@,
                described: described_text@,
            };
            match r {
                Some(m) => described_message(option_text(*content_text), parts@, change) == Some(
                    (option_text(m.0), m.1@),
                ),
                None => described_message(option_text(*content_text), parts@, change) is None,
            }
        }),
{
    let ghost change = Described {
        image_id: image_id@,
        description: description@,
        described: described_text@,
    };
    let list = match parts.as_array() {
        Some(list) => list,
        None => {
            return None;
        },
    };
    let ghost all = items_view(list@);
    let mut text = match content_text {
        Some(t) => t.clone(),
        None => String::new(),
    };
    let ghost first = text@;
    let mut found = false;
    let mut items = Items::new();
    let mut i: usize = 0;
    while i < list.len()
        invariant
            i <= list@.len(),
            all == items_view(list@),
            change == (Described {
                image_id: image_id@,
                description: description@,
                described: described_text@,
            }),
            items@ == described_parts(all, change).take(i as int),
            text@ == described_text_of(first, all.take(i as int), change),
            found == exists|j: int| 0 <= j < i && shows_image(#[trigger] all[j], image_id@),
        decreases list@.len() - i,
    {
        let part = &list[i];
        proof {
            assert(all.take(i + 1).drop_last() =~= all.take(i as int));
            assert(all.take(i + 1).last() == part@);
            assert(all[i as int] == part@);
            let listed = described_parts(all, change);
            assert(listed.take(i + 1) =~= listed.take(i as int).push(listed[i as int]));
        }
        match shown_context(part, image_id) {
            Some(previous) => {
                let next = image_context_with_description(&previous, image_id, described_text);
                text = replace(&text, &previous, &next);
                let data = match part.get("data") {
                    Some(data) => data.copy(),
                    None => Json::Null,
                };
                let filled = data.set("description", Json::text(description)).set(
                    "context_text",
                    Json::text(&next),
                );
                items.push(part.copy().set("data", filled));
                found = true;
            },
            None => {
                items.push(part.copy());
            },
        }
        i += 1;
    }
    assert(all.take(i as int) =~= all);
    assert(described_parts(all, change).take(i as int) =~= described_parts(all, change));
    if !found {
        assert(!any_shows(all, image_id@));
        return None;
    }
    assert(any_shows(all, image_id@));
    let new_text = match content_text {
        Some(_) => Some(text),
        None => None,
    };
    Some((new_text, items.done()))
}

/// The stored pieces of a message are no JSON.
#[derive(Debug, Clone, Copy, PartialEq, Eq, Structural)]
pub struct BrokenParts;

/// A stored message after the description of an image.
pub open spec fn described_row(
    text: Option<Seq<char>>,
    parsed: Option<JsonView>,
    change: Described,
) -> Result<Option<(Option<Seq<char>>, Seq<char>)>, BrokenParts> {
    match parsed {
        None => Err(BrokenParts),
        Some(parts) => match described_message(text, parts, change) {
            Some((new_text, new_parts)) => Ok(Some((new_text, json_written(new_parts)))),
            None => Ok(None),
        },
    }
}

/// A stored message after the description of an image: nothing where the image is not in it.
pub fn complete_image_description(
    content_text: &Option<String>,
    content_parts_json: &str,
    image_id: &str,
    description: &str,
    described_text: &str,
) -> (r: Result<Option<(Option<String>, String)>, BrokenParts>)
    ensures
        ({
            let change = Described {
                image_id: image_id@,
                description: description@,
                described: described_text@,
            };
            let expected = described_row(
                option_text(*content_text),
                json_parsed(content_parts_json@),
                change,
            );
            match r {
                Ok(Some(m)) => expected == Ok::<_, BrokenParts>(Some((option_text(m.0), m.1@))),
                Ok(None) => expected == Ok::<
                    Option<(Option<Seq<char>>, Seq<char>)>,
                    BrokenParts,
                >(None),
                Err(e) => expected == Err::<Option<(Option<Seq<char>>, Seq<char>)>, _>(e),
            }
        }),
{
    match parse_json(content_parts_json) {
        None => Err(BrokenParts),
        Some(parts) => match describe_image_in_message(
            content_text,
            &parts,
            image_id,
            description,
            described_text,
        ) {
            Some((text, new_parts)) => Ok(Some((text, write_json(&new_parts)))),
            None => Ok(None),
        },
    }
}

/// A stored message after the description of an image: nothing where the image is not in it.
pub open spec fn described_stored(row: ChatMessage, change: Described) -> Result<
    Option<(Option<Seq<char>>, Seq<char>)>,
    BrokenParts,
> {
    if has_text(row.content_parts_json@, change.image_id) {
        described_row(option_text(row.content_text), json_parsed(row.content_parts_json@), change)
    } else {
        Ok(None)
    }
}

/// Whether the text and the pieces of a stored message were changed, and nothing else.
pub open spec fn is_changed(
    before: ChatMessage,
    after: ChatMessage,
    change: Option<(Option<Seq<char>>, Seq<char>)>,
) -> bool {
    match change {
        Some((text, parts)) => option_text(after.content_text) == text
            && after.content_parts_json@ == parts && after == (ChatMessage {
            content_text: after.content_text,
            content_parts_json: after.content_parts_json,
            ..before
        }),
        None => after == before,
    }
}

/// Whether a stored message was described.
pub open spec fn is_described(before: ChatMessage, after: ChatMessage, change: Described) -> bool {
    described_stored(before, change) matches Ok(new) && is_changed(before, after, new)
}

/// How many stored messages hold the image.
pub open spec fn described_count(rows: Seq<ChatMessage>, change: Described) -> nat
    decreases rows.len(),
{
    if rows.len() == 0 {
        0
    } else {
        described_count(rows.drop_last(), change) + if described_stored(
            rows.last(),
            change,
        ) matches Ok(Some(_)) {
            1nat
        } else {
            0nat
        }
    }
}

/// Whether an image is stored.
pub open spec fn knows_image(images: Seq<ReceivedImageRecord>, image_id: Seq<char>) -> bool {
    exists|i: int| 0 <= i < images.len() && (#[trigger] images[i]).image_id@ == image_id
}

/// Whether a stored image was described.
pub open spec fn is_described_image(
    before: ReceivedImageRecord,
    after: ReceivedImageRecord,
    image_id: Seq<char>,
    description: Seq<char>,
) -> bool {
    if before.image_id@ == image_id {
        after.description@ == description && after == (ReceivedImageRecord {
            description: after.description,
            ..before
        })
    } else {
        after == before
    }
}

/// What is new in a stored message.
pub open spec fn option_change(change: Option<(Option<String>, String)>) -> Option<
    (Option<Seq<char>>, Seq<char>),
> {
    match change {
        Some((text, parts)) => Some((option_text(text), parts@)),
        None => None,
    }
}

fn has_image(images: &Vec<ReceivedImageRecord>, image_id: &str) -> (r: bool)
    ensures
        r == knows_image(images@, image_id@),
{
    let mut i: usize = 0;
    while i < images.len()
        invariant
            i <= images@.len(),
            forall|j: int| 0 <= j < i ==> (#[trigger] images@[j]).image_id@ != image_id@,
        decreases images@.len() - i,
    {
        if same_text(&images[i].image_id, image_id) {
            return true;
        }
        i += 1;
    }
    false
}

fn describe_image(images: &mut Vec<ReceivedImageRecord>, image_id: &str, description: &str)
    ensures
        final(images)@.len() == old(images)@.len(),
        forall|i: int|
            0 <= i < old(images)@.len() ==> is_described_image(
                #[trigger] old(images)@[i],
                final(images)@[i],
                image_id@,
                description@,
            ),
{
    let ghost all = images@;
    let mut i: usize = 0;
    while i < images.len()
        invariant
            i <= images@.len(),
            images@.len() == all.len(),
            forall|j: int|
                0 <= j < i ==> is_described_image(
                    #[trigger] all[j],
                    images@[j],
                    image_id@,
                    description@,
                ),
            forall|j: int| i <= j < all.len() ==> images@[j] == #[trigger] all[j],
        decreases images@.len() - i,
    {
        if same_text(&images[i].image_id, image_id) {
            images[i].description = description.to_owned();
        }
        i += 1;
    }
}

fn apply_changes(rows: &mut Vec<ChatMessage>, changes: Vec<Option<(Option<String>, String)>>)
    requires
        changes@.len() == old(rows)@.len(),
    ensures
        final(rows)@.len() == old(rows)@.len(),
        forall|i: int|
            0 <= i < old(rows)@.len() ==> is_changed(
                #[trigger] old(rows)@[i],
                final(rows)@[i],
                option_change(changes@[i]),
            ),
{
    let ghost all = rows@;
    let ghost all_changes = changes@;
    let mut rest = changes;
    let mut i: usize = 0;
    while i < rows.len()
        invariant
            i <= rows@.len(),
            rows@.len() == all.len(),
            all_changes.len() == all.len(),
            rest@ =~= all_changes.skip(i as int),
            forall|j: int|
                0 <= j < i ==> is_changed(
                    #[trigger] all[j],
                    rows@[j],
                    option_change(all_changes[j]),
                ),
            forall|j: int| i <= j < all.len() ==> rows@[j] == #[trigger] all[j],
        decreases rows@.len() - i,
    {
        let change = rest.remove(0);
        assert(change == all_changes[i as int]);
        if let Some((text, parts)) = change {
            rows[i].content_text = text;
            rows[i].content_parts_json = parts;
        }
        i += 1;
    }
}

/// Keeps the description of an image, and shows it in all messages that hold the image; they stay
/// read or unread as they are. Tells how many they are. Nothing changes where the image is not
/// stored, nor where the pieces of a message that names it are no JSON.
pub fn complete_received_image_description(
    images: &mut Vec<ReceivedImageRecord>,
    messages: &mut Vec<ChatMessage>,
    image_id: &str,
    description: &str,
    described_text: &str,
) -> (r: Result<usize, BrokenParts>)
    ensures
        ({
            let change = Described {
                image_id: image_id@,
                description: description@,
                described: described_text@,
            };
            let broken = exists|i: int|
                0 <= i < old(messages)@.len() && described_stored(
                    #[trigger] old(messages)@[i],
                    change,
                ) is Err;
            if !knows_image(old(images)@, image_id@) {
                r == Ok::<usize, BrokenParts>(0) && final(images)@ == old(images)@
                    && final(messages)@ == old(messages)@
            } else if broken {
                r == Err::<usize, BrokenParts>(BrokenParts) && final(images)@ == old(images)@
                    && final(messages)@ == old(messages)@
            } else {
                &&& r is Ok && r->Ok_0 == described_count(old(messages)@, change)
                &&& final(images)@.len() == old(images)@.len()
                &&& forall|i: int|
                    0 <= i < old(images)@.len() ==> is_described_image(
                        #[trigger] old(images)@[i],
                        final(images)@[i],
                        image_id@,
                        description@,
                    )
                &&& final(messages)@.len() == old(messages)@.len()
                &&& forall|i: int|
                    0 <= i < old(messages)@.len() ==> is_described(
                        #[trigger] old(messages)@[i],
                        final(messages)@[i],
                        change,
                    )
            }
        }),
{
    let ghost change = Described {
        image_id: image_id@,
        description: description@,
        described: described_text@,
    };
    let ghost all = messages@;
    if !has_image(images, image_id) {
        return Ok(0);
    }
    let mut changes: Vec<Option<(Option<String>, String)>> = Vec::new();
    let mut updated: usize = 0;
    let mut i: usize = 0;
    assert(all.take(0) =~= Seq::empty());
    while i < messages.len()
        invariant
            i <= messages@.len(),
            messages@ == all,
            all == old(messages)@,
            images@ == old(images)@,
            knows_image(images@, image_id@),
            changes@.len() == i,
            updated <= i,
            updated == described_count(all.take(i as int), change),
            change == (Described {
                image_id: image_id@,
                description: description@,
                described: described_text@,
            }),
            forall|j: int|
                0 <= j < i ==> described_stored(#[trigger] all[j], change) == Ok::<
                    Option<(Option<Seq<char>>, Seq<char>)>,
                    BrokenParts,
                >(option_change(changes@[j])),
        decreases messages@.len() - i,
    {
        assert(all.take(i + 1).drop_last() =~= all.take(i as int));
        let row = &messages[i];
        let found = if contains_text(&row.content_parts_json, image_id) {
            match complete_image_description(
                &row.content_text,
                &row.content_parts_json,
                image_id,
                description,
                described_text,
            ) {
                Ok(found) => found,
                Err(e) => {
                    assert(described_stored(all[i as int], change) is Err);
                    return Err(e);
                },
            }
        } else {
            None
        };
        if found.is_some() {
            updated += 1;
        }
        changes.push(found);
        i += 1;
    }
    assert(all.take(i as int) =~= all);
    apply_changes(messages, changes);
    describe_image(images, image_id, description);
    assert forall|j: int| 0 <= j < all.len() implies is_described(
        #[trigger] all[j],
        messages@[j],
        change,
    ) by {
        assert(is_changed(all[j], messages@[j], option_change(changes@[j])));
    }
    Ok(updated)
}

/// The conversations that a page begins before: those with the latest messages first.
#[derive(Debug, PartialEq, Eq)]
pub struct ConversationPageQuery {
    pub kind: Option<String>,
    pub before_time: i64,
    pub before_id: i64,
    pub limit: u32,
}

/// A number kept between two others.
pub open spec fn clamped(n: int, low: int, high: int) -> int {
    if n < low {
        low
    } else if n > high {
        high
    } else {
        n
    }
}

/// The query for a page of conversations: an unknown kind is no filter, without a cursor the page
/// is the first, and a page holds between one and a hundred entries.
pub fn conversation_page_query(
    kind: &Option<String>,
    cursor: Option<(i64, i64)>,
    limit: u32,
) -> (r: ConversationPageQuery)
    ensures
        option_text(r.kind) == (match *kind {
            Some(k) => if k@ == "group"@ || k@ == "direct"@ {
                Some(k@)
            } else {
                None
            },
            None => None,
        }),
        (r.before_time, r.before_id) == (match cursor {
            Some(c) => c,
            None => (i64::MAX, i64::MAX),
        }),
        r.limit == clamped(limit as int, 1, 100),
{
    let wanted = match kind {
        Some(k) => {
            if same_text(k, "group") || same_text(k, "direct") {
                Some(k.clone())
            } else {
                None
            }
        },
        None => None,
    };
    let (before_time, before_id): (i64, i64) = match cursor {
        Some(c) => c,
        None => (i64::MAX, i64::MAX),
    };
    ConversationPageQuery { kind: wanted, before_time, before_id, limit: page_limit(limit) }
}

/// The size of a page: between one and a hundred.
pub fn page_limit(limit: u32) -> (r: u32)
    ensures
        r == clamped(limit as int, 1, 100),
{
    if limit < 1 {
        1
    } else if limit > 100 {
        100
    } else {
        limit
    }
}

/// A description is written at its image and nowhere else: the piece that shows the image gets the
/// description and keeps every other field, and a piece that does not show it stays as it was.
pub proof fn law_a_description_is_written_at_its_image(
    part: JsonView,
    change: Described,
    other: Seq<char>,
    inner: Seq<char>,
)
    requires
        part is Object,
        other != "data"@,
        inner != "description"@,
        inner != "context_text"@,
    ensures
        ({
            let shown = part.text_field("kind"@) == Some("image"@) && part.nested_text(
                "data"@,
                "image_id"@,
            ) == Some(change.image_id);
            let after = described_part(part, change);
            &&& shown ==> {
                &&& after.nested_text("data"@, "description"@) == Some(change.description)
                &&& after.nested_text("data"@, "context_text"@) is Some
                &&& after.field("data"@).unwrap().field(inner) == part.field("data"@).unwrap().field(
                    inner,
                )
                &&& after.field(other) == part.field(other)
            }
            &&& !shown ==> after == part
        }),
{
    reveal_strlit("data");
    reveal_strlit("description");
    reveal_strlit("context_text");
    assert("data"@.len() == 4 && "description"@.len() == 11 && "context_text"@.len() == 12);
    if shows_image(part, change.image_id) {
        let data = part.field("data"@).unwrap()->Object_0;
        let next = JsonView::Text(
            described_context(
                part_context(part, change.image_id),
                change.image_id,
                change.described,
            ),
        );
        let told = JsonView::Text(change.description);
        let first = put_field(data, "description"@, told);
        let second = put_field(first, "context_text"@, next);
        law_a_put_field_is_read_back(data, "description"@, told, inner);
        law_a_put_field_is_read_back(first, "context_text"@, next, inner);
        law_a_put_field_is_read_back(first, "context_text"@, next, "description"@);
        law_a_put_field_is_read_back(part->Object_0, "data"@, JsonView::Object(second), other);
    }
}

/// Where the place of an image stands once in a text, the description takes its place, and what stands
/// around it stays. A text without such a place gives way to the description.
pub proof fn law_the_place_of_an_image_is_filled(
    previous: Seq<char>,
    image_id: Seq<char>,
    described: Seq<char>,
    at: int,
)
    ensures
        ({
            let place = "![图片](attachment://"@ + image_id + ")"@;
            let rest = previous.skip(at + place.len());
            &&& !has_text(previous, place) ==> described_context(previous, image_id, described)
                == described
            &&& (occurs_at(previous, place, at) && !has_text(rest, place) && forall|j: int|
                0 <= j < at ==> !#[trigger] occurs_at(previous, place, j)) ==> described_context(
                previous,
                image_id,
                described,
            ) == previous.take(at) + described + rest
        }),
{
    reveal_strlit(")");
    assert(")"@.len() == 1);
    let place = image_placeholder_of(image_id);
    assert(place.len() > 0);
    law_the_first_is_replaced(previous, place, described, at);
    law_the_first_is_replaced(previous.skip(at + place.len()), place, described, 0);
    if occurs_at(previous, place, at) {
        assert(has_text(previous, place));
    }
}

/// A text is described piece by piece: pieces that do not show the image leave it as it is, a piece
/// that shows it has its own text in it exchanged, and what comes of two stretches of pieces is what
/// the second makes of what the first left.
pub proof fn law_texts_are_described_piece_by_piece(
    text: Seq<char>,
    a: Seq<JsonView>,
    b: Seq<JsonView>,
    part: JsonView,
    change: Described,
)
    ensures
        !shows_image(part, change.image_id) ==> described_text_of(text, seq![part], change) == text,
        shows_image(part, change.image_id) && part.nested_text("data"@, "context_text"@) == Some(text)
            && text.len() > 0 ==> described_text_of(text, seq![part], change) == described_context(
            text,
            change.image_id,
            change.described,
        ),
        described_text_of(text, a + b, change) == described_text_of(
            described_text_of(text, a, change),
            b,
            change,
        ),
    decreases b.len(),
{
    let one = seq![part];
    assert(one.drop_last() =~= Seq::empty());
    assert(described_text_of(text, one.drop_last(), change) == text);
    assert(one.last() == part);
    if shows_image(part, change.image_id) && text.len() > 0 {
        let next = described_context(text, change.image_id, change.described);
        assert(text.subrange(0, text.len() as int) =~= text);
        assert(occurs_at(text, text, 0));
        law_the_first_is_replaced(text, text, next, 0);
        let rest = text.skip(text.len() as int);
        assert(rest.len() == 0);
        law_the_first_is_replaced(rest, text, next, 0);
        assert(!has_text(rest, text));
        assert(text.take(0) + next + rest =~= next);
    }
    if b.len() == 0 {
        assert(a + b =~= a);
    } else {
        law_texts_are_described_piece_by_piece(text, a, b.drop_last(), part, change);
        assert((a + b).drop_last() =~= a + b.drop_last());
        assert((a + b).last() == b.last());
    }
}

/// Whatever comes in, a conversation stays the one it is: its number, its place and its beginning do
/// not change, it keeps a title once it has one, and its last message is the latest of all.
pub proof fn law_conversations_stay_themselves(
    before: DirectoryView,
    new_id: i64,
    message: NewChatMessage,
    now: i64,
)
    ensures
        ({
            let after = directory_after(Some(before), new_id, message, now);
            &&& after.id == before.id
            &&& after.source == before.source
            &&& after.source_conversation_id == before.source_conversation_id
            &&& after.created_at == before.created_at
            &&& after.last_message_at >= before.last_message_at
            &&& after.last_message_at >= message.event_timestamp
            &&& (after.last_message_at == before.last_message_at || after.last_message_at
                == message.event_timestamp)
            &&& after.kind == message.conversation_kind@
            &&& message.conversation_title is None ==> after.title == before.title
            &&& message.conversation_title matches Some(title) ==> if title@.len() == 0 {
                after.title == before.title
            } else {
                after.title == Some(title@)
            }
            &&& message.conversation_metadata_json@ == "{}"@ ==> after.metadata_json
                == before.metadata_json
            &&& message.conversation_metadata_json@ != "{}"@ ==> after.metadata_json
                == message.conversation_metadata_json@
        }),
{
}

} // verus!
