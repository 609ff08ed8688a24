use rolava::chat_history::{
    render_history_message_line, summary_range, SummaryRange, SUMMARY_DAYS,
};
use rolava::history_compression::{render_summary_date_heading, NewConversationDailySummary};
use rolava::json::Json;
use rolava::local_time::{days_before, local_time, previous_day, LocalTime};
use rolava::message_ingestion::{begin_ingestion, finish_ingestion, Ingestion};
use rolava::repository::character_memory::{
    delete_seen_expired_character_memories, mark_expired_character_memories_seen,
    set_character_memory, MemoryRow,
};
use rolava::repository::db_manager::{
    complete_image_description, complete_received_image_description, conversation_page_query,
    history_block_offset, history_block_size, image_context_with_description,
    new_message_from_incoming, normalize_optional_text, page_limit, reset_conversation_history,
    upsert_conversation, write_message, BrokenParts, ChatMessage, ConversationHistoryWindow,
    DuplicateMessage, NewChatMessage, ReceivedImageRecord, StoredMessage,
};
use rolava::resource_cleanup::{
    cutoff_timestamp, file_outcome, is_managed, CleanupStats, FileOutcome,
};
use rolava::scheduler::model::ScheduledTask;
use rolava::startup_history_sync::{
    messages_after_last_bot, messages_after_last_existing, messages_before, target_group_ids,
};
use rolava::transport::{
    preferred_sender_name, reply_target, ContentPart, Conversation, ConversationKind,
    IncomingMessage, MessageContent, Sender,
};

fn incoming(id: &str, sender: &str, timestamp: i64) -> IncomingMessage {
    IncomingMessage {
        source: "qq".to_string(),
        bot_id: "100".to_string(),
        message_id: Some(id.to_string()),
        conversation: Conversation {
            id: "42".to_string(),
            kind: ConversationKind::Group,
            title: Some("群".to_string()),
        },
        sender: Sender {
            id: sender.to_string(),
            display_name: "名片".to_string(),
            nickname: Some("昵称".to_string()),
            role: None,
        },
        content: MessageContent {
            text: "你好".to_string(),
            parts: vec![],
        },
        metadata: Json::Object(vec![]),
        timestamp,
    }
}

fn stored(id: i64, sender: &str, timestamp: i64) -> ChatMessage {
    ChatMessage {
        id,
        conversation_id: 1,
        source: "qq".to_string(),
        source_conversation_id: "42".to_string(),
        conversation_kind: "group".to_string(),
        source_message_id: None,
        sender_id: sender.to_string(),
        sender_display_name: sender.to_string(),
        sender_nickname: None,
        sender_role: None,
        content_text: Some("正文".to_string()),
        message_type: "text".to_string(),
        content_parts_json: "[]".to_string(),
        metadata_json: "{}".to_string(),
        is_read: false,
        event_timestamp: timestamp,
        created_at: timestamp,
    }
}

fn ids(messages: &Vec<IncomingMessage>) -> Vec<String> {
    messages
        .iter()
        .map(|message| message.message_id.clone().unwrap())
        .collect()
}

fn texts(list: &[&str]) -> Vec<String> {
    list.iter().map(|text| text.to_string()).collect()
}

#[test]
fn history_window_rolls_by_the_same_block_size_it_returns() {
    let written: Vec<String> = (1..=11).map(|index| format!("message-{}", index)).collect();
    let block = history_block_size(10);
    assert_eq!(block, 2);
    let offset = history_block_offset(11, 10, block as i64);
    let window = &written[offset as usize..];
    assert_eq!(window.len(), 9);
    assert_eq!(window[0], "message-3");
}

#[test]
fn a_short_history_is_shown_whole() {
    assert_eq!(history_block_offset(10, 10, 2), 0);
    assert_eq!(history_block_offset(0, 10, 2), 0);
    assert_eq!(history_block_offset(13, 10, 2), 4);
    assert_eq!(history_block_size(1), 1);
}

#[test]
fn completed_image_description_updates_image_and_message_without_marking_it_read() {
    let mut images = vec![ReceivedImageRecord {
        image_id: "img_A1b2C3d4".to_string(),
        content_hash: "hash".to_string(),
        local_path: "image.jpg".to_string(),
        description: String::new(),
    }];
    let mut message = test_message(
        "message-image",
        "看看 ![图片](attachment://img_A1b2C3d4)",
        1,
    );
    message.message_type = "image".to_string();
    message.content_parts_json =
        "[{\"kind\": \"image\", \"data\": {\"image_id\": \"img_A1b2C3d4\", \"description\": \"\"}}]"
            .to_string();
    let conversation = upsert_conversation(None, 1, &message, 0);
    let mut history = Vec::new();
    write_message(&mut history, &conversation, &message, 1, 0, false).unwrap();
    let updated = complete_received_image_description(
        &mut images,
        &mut history,
        "img_A1b2C3d4",
        "一张测试图片",
        "![一张测试图片](attachment://img_A1b2C3d4)",
    )
    .unwrap();
    assert_eq!(updated, 1);
    assert_eq!(images[0].description, "一张测试图片");
    assert_eq!(images[0].content_hash, "hash");
    assert_eq!(
        history[0].content_text.as_deref(),
        Some("看看 ![一张测试图片](attachment://img_A1b2C3d4)")
    );
    let parts: serde_json::Value = serde_json::from_str(&history[0].content_parts_json).unwrap();
    assert_eq!(parts[0]["data"]["description"], "一张测试图片");
    assert_eq!(parts[0]["data"]["image_id"], "img_A1b2C3d4");
    assert!(!history[0].is_read);
}

#[test]
fn a_description_changes_nothing_where_it_cannot_be_shown() {
    let image = |id: &str| ReceivedImageRecord {
        image_id: id.to_string(),
        content_hash: "hash".to_string(),
        local_path: "image.jpg".to_string(),
        description: String::new(),
    };
    let mut images = vec![image("img_2")];
    let mut messages = vec![stored(1, "7", 5)];
    messages[0].content_parts_json = "img_1 without json".to_string();
    messages[0].is_read = true;
    let context = "![图](attachment://img_1)";
    assert_eq!(
        complete_received_image_description(&mut images, &mut messages, "img_1", "图", context),
        Ok(0)
    );
    assert_eq!(images, vec![image("img_2")]);
    images.push(image("img_1"));
    assert_eq!(
        complete_received_image_description(&mut images, &mut messages, "img_1", "图", context),
        Err(BrokenParts)
    );
    assert_eq!(images[1], image("img_1"));
    messages[0].content_parts_json = "[]".to_string();
    assert_eq!(
        complete_received_image_description(&mut images, &mut messages, "img_1", "图", context),
        Ok(0)
    );
    assert_eq!(images[0], image("img_2"));
    assert_eq!(images[1].description, "图");
    assert!(messages[0].is_read);
}

#[test]
fn a_description_leaves_other_messages_alone() {
    assert_eq!(
        complete_image_description(&None, "[]", "img_1", "图", "![图](attachment://img_1)"),
        Ok(None)
    );
    assert_eq!(
        complete_image_description(&None, "no json", "img_1", "图", "![图](attachment://img_1)"),
        Err(BrokenParts)
    );
    assert_eq!(
        image_context_with_description(
            "![图片](attachment://img_1)",
            "img_1",
            "![图](attachment://img_1)"
        ),
        "![图](attachment://img_1)"
    );
}

#[test]
fn a_message_that_came_in_is_stored_with_its_parts() {
    let mut message = incoming("m1", "7", 5);
    message.content.parts.push(ContentPart {
        kind: "image".to_string(),
        data: Json::Object(vec![("url".to_string(), Json::Text("u".to_string()))]),
    });
    let new = new_message_from_incoming(&message);
    assert_eq!(new.source_conversation_id, "42");
    assert_eq!(new.conversation_kind, "group");
    assert_eq!(new.source_message_id.as_deref(), Some("m1"));
    assert_eq!(new.event_timestamp, 5);
    let parts: serde_json::Value = serde_json::from_str(&new.content_parts_json).unwrap();
    assert_eq!(parts[0]["kind"], "image");
    assert_eq!(parts[0]["data"]["url"], "u");
    assert_eq!(normalize_optional_text(&Some(String::new())), None);
    assert_eq!(
        normalize_optional_text(&Some(" ".to_string())).as_deref(),
        Some(" ")
    );
}

fn new_message(title: Option<&str>, timestamp: i64) -> NewChatMessage {
    NewChatMessage {
        source: "test".to_string(),
        source_conversation_id: "conversation".to_string(),
        conversation_kind: "group".to_string(),
        conversation_title: title.map(str::to_string),
        conversation_metadata_json: "{}".to_string(),
        source_message_id: Some("message".to_string()),
        sender_id: "user".to_string(),
        sender_display_name: "user".to_string(),
        sender_nickname: None,
        sender_role: None,
        content_text: "正文".to_string(),
        message_type: "text".to_string(),
        content_parts_json: "[]".to_string(),
        metadata_json: "{}".to_string(),
        event_timestamp: timestamp,
    }
}

#[test]
fn a_conversation_keeps_its_title() {
    let first = upsert_conversation(None, 9, &new_message(Some("旧标题"), 5), 100);
    assert_eq!(first.id, 9);
    assert_eq!(first.title.as_deref(), Some("旧标题"));
    assert_eq!(first.last_message_at, 5);
    let second = upsert_conversation(Some(first), 10, &new_message(None, 7), 200);
    assert_eq!(second.id, 9);
    assert_eq!(second.title.as_deref(), Some("旧标题"));
    assert_eq!(second.last_message_at, 7);
}

#[test]
fn pages_have_bounds() {
    let query = conversation_page_query(&Some("group".to_string()), Some((5, 6)), 1000);
    assert_eq!(query.kind.as_deref(), Some("group"));
    assert_eq!((query.before_time, query.before_id), (5, 6));
    assert_eq!(query.limit, 100);
    let all = conversation_page_query(&Some("other".to_string()), None, 0);
    assert_eq!(all.kind, None);
    assert_eq!(all.before_time, i64::MAX);
    assert_eq!(all.limit, 1);
    assert_eq!(page_limit(30), 30);
}

#[test]
fn a_known_message_is_passed_over() {
    assert_eq!(
        begin_ingestion(incoming("m1", "7", 5), true),
        Ingestion::Known
    );
    assert!(matches!(
        begin_ingestion(incoming("m1", "7", 5), false),
        Ingestion::Enrich { message } if message.timestamp == 5
    ));
    assert!(finish_ingestion(incoming("m1", "7", 5), None).is_none());
    let ingested = finish_ingestion(
        incoming("m1", "7", 5),
        Some(StoredMessage { id: 3 }),
    )
    .unwrap();
    assert_eq!(ingested.stored.id, 3);
    assert_eq!(ingested.message.message_id.as_deref(), Some("m1"));
}

#[test]
fn expired_image_file_and_database_record_are_deleted() {
    let mut stats = CleanupStats::new(1);
    stats.count(file_outcome(true, Some(true)));
    assert_eq!(stats.scanned, 1);
    assert_eq!(stats.deleted, 1);
    assert_eq!(stats.failed, 0);
}

#[test]
fn a_file_that_stays_keeps_its_record() {
    assert_eq!(file_outcome(false, None), FileOutcome::FileKept);
    assert_eq!(file_outcome(true, None), FileOutcome::RecordKept);
    assert_eq!(file_outcome(true, Some(false)), FileOutcome::Gone);
    let mut stats = CleanupStats::new(2);
    stats.count(FileOutcome::FileKept);
    stats.count(FileOutcome::RecordKept);
    assert_eq!((stats.deleted, stats.failed), (0, 2));
    assert_eq!(cutoff_timestamp(2_592_001), 1);
}

#[test]
fn only_files_in_the_directory_are_managed() {
    let root = texts(&["/", "data", "images"]);
    assert!(is_managed(&texts(&["/", "data", "images", "a.png"]), &root));
    assert!(!is_managed(&texts(&["/", "data", "images2", "a.png"]), &root));
    assert!(!is_managed(&texts(&["/", "data"]), &root));
}

#[test]
fn groups_are_caught_up_on_in_order_and_once() {
    assert_eq!(
        target_group_ids(&texts(&[" 30 ", "x", "10", "30", "20"])),
        vec![10, 20, 30]
    );
}

#[test]
fn only_what_the_assistant_missed_is_caught_up_on() {
    let history = vec![
        incoming("a", "7", 1),
        incoming("b", "100", 2),
        incoming("c", "8", 3),
        incoming("d", "7", 4),
        incoming("e", "7", 9),
    ];
    let before = messages_before(history, 9);
    assert_eq!(ids(&before), texts(&["a", "b", "c", "d"]));
    let missed = messages_after_last_bot(before, "100");
    assert_eq!(ids(&missed), texts(&["c", "d"]));
    let fresh = messages_after_last_existing(missed, &vec![true, false]);
    assert_eq!(ids(&fresh), texts(&["d"]));
}

#[test]
fn replies_go_where_a_message_came_from() {
    let target = reply_target(&incoming("a", "7", 1));
    assert_eq!(target.source, "qq");
    assert_eq!(target.bot_id, "100");
    assert_eq!(target.conversation.id, "42");
    assert_eq!(
        preferred_sender_name("名片", &Some("昵称".to_string())),
        "昵称"
    );
    assert_eq!(
        preferred_sender_name("名片", &Some(" ".to_string())),
        "名片"
    );
}

fn row(id: i64, title: &str, expires_at: i64) -> MemoryRow {
    MemoryRow {
        id,
        title: title.to_string(),
        content: "内容".to_string(),
        expires_at,
        expired_seen_at: None,
        created_at: id,
        updated_at: id,
    }
}

#[test]
fn remembering_more_than_fits_forgets_the_first_to_go() {
    let mut rows = vec![row(1, "甲", 100), row(2, "乙", 50)];
    let result = set_character_memory(
        &mut rows,
        3,
        "丙",
        &Some("新内容".to_string()),
        Some(500),
        2,
        10,
    )
    .unwrap();
    assert!(result.created);
    assert_eq!(result.evicted_title.as_deref(), Some("乙"));
    assert_eq!(rows.len(), 2);
    assert!(rows.iter().any(|row| row.title == "丙"));
}

#[test]
fn what_has_expired_goes_once_it_was_seen() {
    let mut rows = vec![row(1, "甲", 100), row(2, "乙", 5)];
    assert_eq!(delete_seen_expired_character_memories(&mut rows, 10), 0);
    assert_eq!(
        mark_expired_character_memories_seen(&mut rows, &vec![1, 2], 10),
        1
    );
    assert_eq!(delete_seen_expired_character_memories(&mut rows, 11), 1);
    assert_eq!(rows.len(), 1);
    assert_eq!(rows[0].title, "甲");
}

#[test]
fn summaries_cover_the_days_before_the_window() {
    let window = ConversationHistoryWindow {
        messages: vec![stored(1, "7", 1_750_000_000)],
        history_block_size: 2,
    };
    let now = 1_750_000_000 + 86_400;
    assert_eq!(summary_range(&window, now, false), Ok(None));
    let range: SummaryRange = summary_range(&window, now, true).unwrap().unwrap();
    let today = local_time(now).unwrap();
    assert_eq!(range.from_date, days_before(&today, SUMMARY_DAYS).date());
    assert_eq!(range.through_date, local_time(1_750_000_000).unwrap().date());
    assert_eq!(range.conversation_id, 1);
    let empty = ConversationHistoryWindow {
        messages: vec![],
        history_block_size: 2,
    };
    assert_eq!(summary_range(&empty, now, true), Ok(None));
}

#[test]
fn days_are_counted_back_over_months_and_years() {
    let day = |year: i32, month: u32, day: u32, day_number: i32| LocalTime {
        year,
        month,
        day,
        hour: 1,
        minute: 2,
        second: 3,
        day_number,
    };
    assert_eq!(
        previous_day(&day(2024, 3, 1, 738_946)),
        day(2024, 2, 29, 738_945)
    );
    assert_eq!(
        previous_day(&day(2023, 3, 1, 738_580)),
        day(2023, 2, 28, 738_579)
    );
    assert_eq!(
        previous_day(&day(2024, 1, 1, 738_886)),
        day(2023, 12, 31, 738_885)
    );
    assert_eq!(
        days_before(&day(2024, 3, 15, 738_960), 30),
        day(2024, 2, 14, 738_930)
    );
    assert_eq!(
        days_before(&day(2000, 3, 1, 730_180), 1),
        day(2000, 2, 29, 730_179)
    );
    assert_eq!(days_before(&day(1, 1, 1, 1), 1), day(0, 12, 31, 0));
}

fn test_message(id: &str, text: &str, timestamp: i64) -> NewChatMessage {
    NewChatMessage {
        source: "test".to_string(),
        source_conversation_id: "conversation".to_string(),
        conversation_kind: "direct".to_string(),
        conversation_title: None,
        conversation_metadata_json: "{}".to_string(),
        source_message_id: Some(id.to_string()),
        sender_id: "user".to_string(),
        sender_display_name: "用户".to_string(),
        sender_nickname: Some(String::new()),
        sender_role: None,
        content_text: text.to_string(),
        message_type: "text".to_string(),
        content_parts_json: "[]".to_string(),
        metadata_json: "{}".to_string(),
        event_timestamp: timestamp,
    }
}

#[test]
fn idempotent_incoming_write_keeps_one_unread_message() {
    let message = test_message("message-1", "历史消息", 1);
    let conversation = upsert_conversation(None, 7, &message, 1);
    let mut history = Vec::new();

    let first = write_message(&mut history, &conversation, &message, 10, 1, true);
    let duplicate = write_message(&mut history, &conversation, &message, 11, 1, true);

    assert_eq!(first, Ok(Some(StoredMessage { id: 10 })));
    assert_eq!(duplicate, Ok(None));
    assert_eq!(history.len(), 1);
    assert!(!history[0].is_read);
    assert_eq!(history[0].conversation_id, 7);
    assert_eq!(history[0].sender_nickname, None);
    assert_eq!(history[0].content_text, Some("历史消息".to_string()));

    assert_eq!(
        write_message(&mut history, &conversation, &message, 12, 1, false),
        Err(DuplicateMessage)
    );
    let other = upsert_conversation(None, 8, &message, 1);
    assert_eq!(
        write_message(&mut history, &other, &message, 13, 1, true),
        Ok(Some(StoredMessage { id: 13 }))
    );
    assert_eq!(history.len(), 2);
}

#[test]
fn messages_without_a_number_are_always_written() {
    let mut message = new_message_from_incoming(&incoming("1", "200", 5));
    message.source_message_id = Some(String::new());
    let conversation = upsert_conversation(None, 1, &message, 5);
    let mut rows = Vec::new();
    for id in 0..3 {
        let stored = write_message(&mut rows, &conversation, &message, id, 5, true);
        assert_eq!(stored, Ok(Some(StoredMessage { id })));
    }
    assert_eq!(rows.len(), 3);
    assert_eq!(rows[2].source_message_id, None);
}

#[test]
fn reset_conversation_removes_only_chat_state_and_keeps_scheduled_tasks() {
    let message = test_message("message-1", "需要删除", 1);
    let mut conversation = upsert_conversation(None, 1, &message, 0);
    let mut other_message = test_message("other-message", "其它会话", 2);
    other_message.source_conversation_id = "other-conversation".to_string();
    let other = upsert_conversation(None, 2, &other_message, 0);
    let mut messages = Vec::new();
    write_message(&mut messages, &conversation, &message, 1, 0, false).unwrap();
    write_message(&mut messages, &other, &other_message, 2, 0, false).unwrap();
    let summary = |conversation_id: i64| NewConversationDailySummary {
        conversation_id,
        summary_date: "2024-01-01".to_string(),
        period_start: 0,
        period_end: 86_400,
        summary_text: "摘要".to_string(),
        source_message_count: 1,
        source_first_message_id: 1,
        source_last_message_id: 1,
    };
    let mut summaries = vec![summary(1), summary(2), summary(1)];
    let tasks = vec![ScheduledTask {
        id: "task_ResetKeep".to_string(),
        conversation_id: 1,
        source: "test".to_string(),
        source_conversation_id: "conversation".to_string(),
        conversation_kind: "direct".to_string(),
        conversation_title: None,
        bot_id: "bot".to_string(),
        title: "保留任务".to_string(),
        schedule: "cron:0 9 * * *".to_string(),
        instruction: "重置后仍然保留".to_string(),
        next_run_at: 100,
        last_triggered_at: None,
        created_at: 0,
        updated_at: 0,
    }];
    assert_eq!(conversation.last_message_at, 1);

    let result = reset_conversation_history(&mut conversation, &mut messages, &mut summaries);

    assert_eq!(result.deleted_messages, 1);
    assert_eq!(result.deleted_daily_summaries, 2);
    assert!(messages.iter().all(|message| message.conversation_id != 1));
    assert_eq!(messages.iter().filter(|message| message.conversation_id == 2).count(), 1);
    assert_eq!(summaries.len(), 1);
    assert_eq!(conversation.last_message_at, 0);
    assert!(tasks.iter().any(|task| task.id == "task_ResetKeep" && task.conversation_id == 1));
}

#[test]
fn lines_of_the_history_show_who_said_what_and_when() {
    let time = LocalTime {
        year: 2024,
        month: 5,
        day: 6,
        hour: 7,
        minute: 8,
        second: 9,
        day_number: 739_012,
    };
    let mut message = stored(1, "200", 5);
    message.sender_display_name = "名片".to_string();
    message.content_text = Some("你好".to_string());
    assert_eq!(render_history_message_line(&message, &time), "名片（07:08:09）:你好");
    message.sender_nickname = Some("昵称".to_string());
    message.content_text = None;
    assert_eq!(render_history_message_line(&message, &time), "昵称（07:08:09）:");
}

#[test]
fn summaries_are_headed_by_their_day() {
    assert_eq!(
        render_summary_date_heading("2024-01-01"),
        Ok("2024年1月1日 星期一".to_string())
    );
    assert_eq!(
        render_summary_date_heading("2024-02-29"),
        Ok("2024年2月29日 星期四".to_string())
    );
    assert!(render_summary_date_heading("2023-02-29").is_err());
}
