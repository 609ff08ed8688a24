use rolava::ai_provider::{
    ContextMessage, MessageRole, ReasoningState, ToolChatContentPart, ToolChatMessage,
    ToolChatResponse, ToolChatUserContent,
};
use rolava::commands::CommandOutput;
use rolava::conversation_context::RuntimeContextState;
use rolava::conversation_control::ConversationControl;
use rolava::conversation_trigger::ConversationTrigger;
use rolava::json::Json;
use rolava::local_time::local_time;
use rolava::pipeline::ai_action::{action_names, parse_action_plan, RespAction};
use rolava::pipeline::chat_pipeline::{
    build_context as build_plain_context, conversation_key, insert_tool_results_prompt,
    is_message_allowed, mentions_bot, parse_schedule_datetime, receive_plan, schedule_delay,
    should_skip_message, sort_batch, timeout_message, tool_result, ActionEffect,
    CollectedMessages, ConversationWorker, MessageStep, PlanAttempt, ScheduleTimeError, ToolOutcome, WorkerStep,
    MESSAGE_BATCH_WAIT_SECS,
};
use rolava::pipeline::chat_processor::{
    build_context, earliest_unread_timestamp, may_ask_again, message_image_paths,
    non_empty_response_content, render_instruction_prompt, render_scene,
    render_static_system_prompt, render_unread_message_time, replace_optional_prompt_line,
    should_continue_tool_loop, vision_message_ids, HistoryEntry, InstructionValues,
};
use rolava::pipeline::conversation_actor::{
    apply_command_output, BatchStep, ConversationEvent, MessageBatch,
};
use rolava::pipeline::dispatcher::{ActorStep, ConversationDispatcher, DeliveryStep};
use rolava::pipeline::filter::{
    ai_filter_enabled_for, first_step, parse_filter_action, render_current_messages_log,
    second_step, settle,
    should_accept_platform_message, trim_filter_context, ConversationFilter, FilterAction,
    FilterStep, FilteredMessage,
};
use rolava::pipeline::tool_loop::{begin_turn, CallStep, ToolLoop};
use rolava::repository::db_manager::ChatMessage;
use rolava::tools::{ConversationEffect, ToolCall, ToolResult};
use rolava::transport::{
    ContentPart, Conversation, ConversationKind, IncomingMessage, MessageContent, Sender,
};

fn texts(list: &[&str]) -> Vec<String> {
    list.iter().map(|text| text.to_string()).collect()
}

fn incoming(kind: ConversationKind, id: &str, sender: &str, timestamp: i64) -> IncomingMessage {
    IncomingMessage {
        source: "qq".to_string(),
        bot_id: "100".to_string(),
        message_id: Some(format!("m{}", timestamp)),
        conversation: Conversation {
            id: id.to_string(),
            kind,
            title: None,
        },
        sender: Sender {
            id: sender.to_string(),
            display_name: "名".to_string(),
            nickname: None,
            role: None,
        },
        content: MessageContent {
            text: "你好".to_string(),
            parts: vec![],
        },
        metadata: Json::Null,
        timestamp,
    }
}

fn mention(account: &str) -> ContentPart {
    ContentPart {
        kind: "at".to_string(),
        data: Json::Object(vec![("qq".to_string(), Json::Text(account.to_string()))]),
    }
}

fn stored(id: i64, sender: &str, text: &str, is_read: bool) -> ChatMessage {
    ChatMessage {
        id,
        conversation_id: 1,
        source: "qq".to_string(),
        source_conversation_id: "42".to_string(),
        conversation_kind: "group".to_string(),
        source_message_id: None,
        sender_id: sender.to_string(),
        sender_display_name: format!("名{}", sender),
        sender_nickname: None,
        sender_role: None,
        content_text: Some(text.to_string()),
        message_type: "text".to_string(),
        content_parts_json: "[]".to_string(),
        metadata_json: "{}".to_string(),
        is_read,
        event_timestamp: id,
        created_at: id,
    }
}

fn entry(id: i64, sender: &str, text: &str, is_read: bool) -> HistoryEntry {
    HistoryEntry {
        message: stored(id, sender, text, is_read),
        date: "2026-01-01".to_string(),
        time: "10:00".to_string(),
        images: vec![],
    }
}

#[test]
fn whitelists_let_messages_in() {
    let group = incoming(ConversationKind::Group, "42", "7", 1);
    let direct = incoming(ConversationKind::Direct, "7", "7", 1);
    assert!(is_message_allowed(&group, &vec![], &vec![]));
    assert!(is_message_allowed(&group, &texts(&["9"]), &texts(&["42"])));
    assert!(!is_message_allowed(&group, &vec![], &texts(&["43"])));
    assert!(!is_message_allowed(&direct, &texts(&["8"]), &vec![]));
    assert!(!should_skip_message(&group, &vec![], &vec![]));
    assert!(should_skip_message(&group, &vec![], &texts(&["43"])));
    assert!(should_accept_platform_message(&direct, &texts(&["7"]), &vec![]));
}

#[test]
fn keys_tell_conversations_apart() {
    let group = conversation_key(&incoming(ConversationKind::Group, "42", "7", 1));
    let direct = conversation_key(&incoming(ConversationKind::Direct, "42", "7", 1));
    assert_ne!(group, direct);
    assert_eq!(
        group,
        conversation_key(&incoming(ConversationKind::Group, "42", "8", 2))
    );
}

#[test]
fn a_mention_names_the_assistant() {
    let mut message = incoming(ConversationKind::Group, "42", "7", 1);
    assert!(!mentions_bot(&message));
    message.content.parts.push(mention("7"));
    assert!(!mentions_bot(&message));
    message.content.parts.push(mention("100"));
    assert!(mentions_bot(&message));
}

#[test]
fn plans_are_read() {
    let plan = parse_action_plan(
        r#"{"mind_state":"平静","actions":[{"action":"send_message","payload":{"text":"你好"}},{"action":"wait_then_check","payload":{"delay_seconds":9,"reason":"等"}}]}"#,
    )
    .unwrap();
    assert_eq!(plan.mind_state, "平静");
    assert_eq!(
        plan.actions[0],
        RespAction::SendMessage {
            text: "你好".to_string()
        }
    );
    assert_eq!(
        action_names(&plan.actions),
        "[send_message, wait_then_check]"
    );
    assert_eq!(action_names(&vec![]), "无动作");
    assert!(parse_action_plan("no json").is_none());
    assert!(parse_action_plan(r#"{"mind_state":"a","actions":[{"action":"fly","payload":{}}]}"#).is_none());
    assert_eq!(receive_plan(1, 2, Some("no json")), PlanAttempt::AskAgain);
    assert_eq!(receive_plan(2, 2, None), PlanAttempt::GiveUp);
    assert!(matches!(
        receive_plan(2, 2, Some(r#"{"mind_state":"a","actions":[]}"#)),
        PlanAttempt::Planned(_)
    ));
    assert_eq!(timeout_message("请求", 30), "请求超时，超过 30 秒");
    assert!(may_ask_again(1, 2));
    assert!(!may_ask_again(2, 2));
}

#[test]
fn a_message_cancels_looking_again() {
    let mut worker = ConversationWorker::new();
    assert_eq!(worker.next_step(0), WorkerStep::WaitForMessage);
    worker.execute_wait_then_check(1000, 1, "等等".to_string());
    assert_eq!(worker.next_step(1000), WorkerStep::WaitUntil { ready_at: 6000 });
    assert_eq!(worker.receive_message(false), MessageStep::Deliver);
    assert_eq!(worker.next_step(1000), WorkerStep::WaitForMessage);
    worker.execute_wait_then_check(1000, 10_000, "等等".to_string());
    assert_eq!(
        worker.next_step(1000),
        WorkerStep::WaitUntil { ready_at: 601_000 }
    );
    assert_eq!(
        worker.wake(601_000),
        WorkerStep::Trigger {
            reason: "已等待 600 秒无人继续发言。等待原因：等等".to_string()
        }
    );
}

#[test]
fn messages_are_held_back_while_ignored() {
    let mut worker = ConversationWorker::new();
    worker.execute_ignore_messages(0, 60);
    assert_eq!(worker.receive_message(false), MessageStep::Store);
    worker.message_stored();
    assert!(worker.pending_ignore_messages.unwrap().has_unread_messages);
    assert!(matches!(worker.wake(60_000), WorkerStep::Trigger { .. }));
    worker.execute_ignore_messages(0, 60);
    assert_eq!(worker.receive_message(true), MessageStep::Deliver);
    assert_eq!(worker.next_step(0), WorkerStep::WaitForMessage);
}

#[test]
fn tools_hold_messages_back() {
    let mut worker = ConversationWorker::new();
    worker.start_tools();
    assert_eq!(worker.next_step(0), WorkerStep::WaitForTools);
    assert_eq!(worker.receive_message(true), MessageStep::Store);
    worker.message_stored();
    assert!(worker.tools_done().contains("收到了新的聊天消息"));
    assert_eq!(worker.next_step(0), WorkerStep::WaitForMessage);
}

#[test]
fn the_earliest_due_task_comes_first() {
    let mut worker = ConversationWorker::new();
    let now_ms = 1_750_000_000_000;
    assert!(worker.schedule_task_at(0, now_ms, 1_750_000_020, "后".to_string()));
    assert!(worker.schedule_task_at(0, now_ms, 1_750_000_010, "先".to_string()));
    assert!(!worker.schedule_task_at(0, now_ms, i64::MAX, "无".to_string()));
    assert_eq!(worker.next_step(0), WorkerStep::WaitUntil { ready_at: 10_000 });
    match worker.next_step(30_000) {
        WorkerStep::Trigger { reason } => assert!(reason.contains("先")),
        other => panic!("{:?}", other),
    }
    match worker.next_step(30_000) {
        WorkerStep::Trigger { reason } => assert!(reason.contains("后")),
        other => panic!("{:?}", other),
    }
    assert_eq!(schedule_delay(5, 9_000), 1000);
    assert_eq!(schedule_delay(9, 5_000), 4000);
}

#[test]
fn actions_have_effects() {
    let mut worker = ConversationWorker::new();
    assert_eq!(
        worker.execute_action(
            RespAction::SendMessage {
                text: "你好".to_string()
            },
            0
        ),
        ActionEffect::SendMessage {
            text: "你好".to_string()
        }
    );
    assert!(matches!(
        worker.execute_action(
            RespAction::WebSearch {
                query: "天气".to_string()
            },
            0
        ),
        ActionEffect::WebSearch { query, .. } if query == "天气"
    ));
    assert_eq!(
        worker.execute_action(
            RespAction::IgnoreMessages {
                duration_seconds: 1
            },
            0
        ),
        ActionEffect::Nothing
    );
    assert_eq!(worker.pending_ignore_messages.unwrap().duration_seconds, 10);
}

#[test]
fn a_date_and_a_time_name_a_moment() {
    let moment = parse_schedule_datetime(" 2026-08-24 ", " 12:30:15 ").unwrap();
    let shown = local_time(moment).unwrap();
    assert_eq!(shown.date_and_time(), "2026-08-24 12:30:15");
    assert_eq!(
        parse_schedule_datetime("soon", "12:30:15"),
        Err(ScheduleTimeError::BadDate {
            fault: "input contains invalid characters".to_string()
        })
    );
    assert_eq!(
        parse_schedule_datetime("2026-08-24", "noon"),
        Err(ScheduleTimeError::BadTime {
            fault: "input contains invalid characters".to_string()
        })
    );
    assert_eq!(
        parse_schedule_datetime("2026-13-24", "12:30:15")
            .unwrap_err()
            .message(),
        "日期格式错误，需要 YYYY-MM-DD：input is out of range"
    );
    assert_eq!(
        parse_schedule_datetime("2026-08-24", "12:30")
            .unwrap_err()
            .message(),
        "时间格式错误，需要 HH:MM:SS：premature end of input"
    );
    assert_eq!(
        ScheduleTimeError::NotOnce.message(),
        "本地日期时间不存在或不唯一"
    );
}

#[test]
fn results_of_tools_are_shown() {
    let done = tool_result(
        "web_search".to_string(),
        "天气".to_string(),
        ToolOutcome::Done("晴".to_string()),
    );
    assert!(!done.is_error);
    let failed = tool_result(
        "web_search".to_string(),
        "天气".to_string(),
        ToolOutcome::Failed("断网".to_string()),
    );
    assert!(failed.is_error);
    assert!(failed.output.contains("断网"));
    let prompt = insert_tool_results_prompt("前\n{{tool_results}}\n后", &vec![done]);
    assert!(prompt.contains("晴"));
}

#[test]
fn batches_are_ordered_by_time() {
    let batch = sort_batch(vec![
        incoming(ConversationKind::Group, "42", "7", 5),
        incoming(ConversationKind::Group, "42", "7", 3),
        incoming(ConversationKind::Group, "42", "7", 4),
    ]);
    let times: Vec<i64> = batch.iter().map(|message| message.timestamp).collect();
    assert_eq!(times, vec![3, 4, 5]);
}

#[test]
fn a_plain_context_marks_what_is_unread() {
    let context = build_plain_context(
        "规则",
        "角色",
        &vec![entry(1, "7", "旧", true), entry(2, "7", "新", false)],
        "100",
        "指令",
    );
    assert_eq!(context.messages[0].role, MessageRole::System);
    let text: String = context
        .messages
        .iter()
        .map(|message| message.content.clone())
        .collect::<Vec<_>>()
        .join("\n");
    assert!(text.find("旧").unwrap() < text.find("新").unwrap());
    assert!(text.ends_with("指令"));
    assert_eq!(context.included_message_ids, vec![1, 2]);
}

#[test]
fn a_context_frames_the_history() {
    let mut state = RuntimeContextState::new();
    state.reconcile_message_ids(&vec![1, 2, 3]).unwrap();
    let context = build_context(
        &state,
        &vec![
            entry(1, "7", "问", true),
            entry(2, "100", "答", true),
            entry(3, "7", "再问", false),
        ],
        2,
        "100",
        "规则",
        &None,
        "指令",
    );
    assert_eq!(
        context.messages[0],
        ToolChatMessage::System {
            content: "规则".to_string()
        }
    );
    assert_eq!(context.unread_message_ids, vec![3]);
    assert_eq!(context.latest_message_id, Some(3));
    assert!(context.messages.iter().any(|message| matches!(
        message,
        ToolChatMessage::Assistant { content: Some(text), .. } if text.contains("答")
    )));
}

#[test]
fn images_of_the_latest_messages_go_along() {
    assert_eq!(vision_message_ids(&vec![1, 2, 3], true, 2).contains(3), true);
    assert_eq!(vision_message_ids(&vec![1, 2, 3], true, 2).contains(1), false);
    assert_eq!(vision_message_ids(&vec![1, 2, 3], false, 2).contains(3), false);
    let mut message = stored(1, "7", "图", true);
    message.content_parts_json = r#"[{"kind":"image","data":{"local_path":"a.png"}},{"kind":"text"},{"kind":"image","data":{}}]"#.to_string();
    assert_eq!(message_image_paths(&message), texts(&["a.png"]));
    message.content_parts_json = "no json".to_string();
    assert!(message_image_paths(&message).is_empty());
}

#[test]
fn instructions_are_filled_in() {
    let values = InstructionValues {
        unread_message_time: None,
        date: "2026-01-01".to_string(),
        scene: "群聊".to_string(),
        scheduled_tasks: "[]".to_string(),
        character_memories: "无".to_string(),
        recent_user_memories: "无".to_string(),
    };
    assert_eq!(
        render_instruction_prompt("{{date}}\n未读 {{unread_message_time}}\n{{scene}}", &values),
        "2026-01-01\n群聊"
    );
    assert_eq!(
        replace_optional_prompt_line("甲\n乙 {{x}}\n丙", "{{x}}", &Some("1".to_string())),
        "甲\n乙 1\n丙"
    );
    assert_eq!(render_scene("群聊", &None), "群聊");
    assert_eq!(render_static_system_prompt("规则", "角色"), "规则\n\n角色");
    assert_eq!(render_unread_message_time(None), None);
    assert_eq!(render_unread_message_time(Some(i64::MAX)), None);
    assert!(render_unread_message_time(Some(1_750_000_000)).is_some());
    assert_eq!(
        earliest_unread_timestamp(
            &vec![
                stored(1, "7", "a", true),
                stored(2, "100", "b", false),
                stored(3, "7", "c", false)
            ],
            "100"
        ),
        Some(3)
    );
}

fn response(content: Option<&str>, calls: Vec<ToolCall>) -> ToolChatResponse {
    ToolChatResponse {
        content: content.map(str::to_string),
        reasoning: ReasoningState {
            display_text: None,
            replay: None,
        },
        tool_calls: calls,
        finish_reason: None,
        id: None,
        model: None,
        usage: None,
        raw_response: Json::Null,
    }
}

fn call(id: &str) -> ToolCall {
    ToolCall {
        id: id.to_string(),
        name: "lookup".to_string(),
        arguments: "{}".to_string(),
    }
}

fn result(id: &str, asks: bool, effect: ConversationEffect) -> ToolResult {
    ToolResult {
        tool_call_id: id.to_string(),
        tool_name: "lookup".to_string(),
        content: "结果".to_string(),
        is_error: false,
        requires_ai_response: asks,
        conversation_effect: effect,
    }
}

#[test]
fn tools_are_run_until_the_model_is_done() {
    let mut context = RuntimeContextState::new();
    context.reconcile_message_ids(&vec![1]).unwrap();
    let mut tool_loop = ToolLoop::new(
        vec![ToolChatMessage::User {
            content: ToolChatUserContent::text("你好"),
        }],
        vec![9],
    );
    let first = response(Some("查一下"), vec![call("a")]);
    let step = tool_loop.receive_answer(&first, &mut context);
    assert!(step.mark_read);
    assert_eq!(step.text.as_deref(), Some("查一下"));
    assert!(context.is_sealed_after(1));
    assert_eq!(
        tool_loop.after_sending(&first, &vec![2]),
        CallStep::Run {
            calls: vec![call("a")]
        }
    );
    assert!(tool_loop.receive_results(
        &first,
        &vec![result("a", true, ConversationEffect::Continue)],
        None
    ));
    assert_eq!(tool_loop.request_messages().len(), 3);
    let second = response(Some("好了"), vec![]);
    assert!(!tool_loop.receive_answer(&second, &mut context).mark_read);
    assert_eq!(tool_loop.after_sending(&second, &vec![3]), CallStep::Finish);
    let (displayed, fault) = tool_loop.finish(ConversationKind::Group, Some(1), &mut context);
    assert!(displayed.contains(9));
    assert_eq!(fault, None);
    assert_eq!(context.active_tool_histories().len(), 1);
    assert!(context.active_tool_histories()[0].suppresses_message(2));
    assert_eq!(begin_turn(ConversationKind::Group, &mut context), 0);
}

#[test]
fn a_finished_conversation_drops_its_exchanges() {
    let mut context = RuntimeContextState::new();
    let mut tool_loop = ToolLoop::new(vec![], vec![]);
    let answer = response(None, vec![call("a")]);
    tool_loop.receive_answer(&answer, &mut context);
    tool_loop.after_sending(&answer, &vec![]);
    assert!(!tool_loop.receive_results(
        &answer,
        &vec![result("a", false, ConversationEffect::End)],
        None
    ));
    let (_, fault) = tool_loop.finish(ConversationKind::Direct, None, &mut context);
    assert_eq!(fault, None);
    assert!(context.active_tool_histories().is_empty());
    assert!(!should_continue_tool_loop(&vec![result(
        "a",
        false,
        ConversationEffect::Continue
    )]));
    assert_eq!(non_empty_response_content(&Some("  ".to_string())), None);
}

#[test]
fn conversations_are_started_once() {
    let mut dispatcher = ConversationDispatcher::new();
    assert_eq!(dispatcher.get_or_spawn_actor("a"), ActorStep::Spawn);
    assert_eq!(dispatcher.get_or_spawn_actor("a"), ActorStep::Existing);
    assert_eq!(dispatcher.after_send("a", true, false), DeliveryStep::Delivered);
    assert_eq!(dispatcher.after_send("a", false, false), DeliveryStep::Replace);
    assert_eq!(dispatcher.get_or_spawn_actor("a"), ActorStep::Spawn);
    assert_eq!(dispatcher.after_send("a", false, true), DeliveryStep::Lost);
}

#[test]
fn batches_end_at_commands_and_triggers() {
    let first = incoming(ConversationKind::Group, "42", "7", 1);
    let mut batch = MessageBatch::new(first);
    for time in 2..5 {
        let event =
            ConversationEvent::IncomingMessage(incoming(ConversationKind::Group, "42", "7", time));
        let (next, step) = batch.receive(event, false);
        assert_eq!(step, BatchStep::Wait);
        batch = next;
    }
    let command =
        ConversationEvent::IncomingMessage(incoming(ConversationKind::Group, "42", "7", 9));
    let (batch, step) = batch.receive(command, true);
    assert!(matches!(step, BatchStep::EndBefore(_)));
    let trigger = ConversationEvent::InternalTrigger(ConversationTrigger {
        user_prompt: "x".to_string(),
        memory_review: false,
    });
    let (batch, step) = batch.receive(trigger, false);
    assert!(matches!(step, BatchStep::EndBefore(_)));
    let last = ConversationEvent::IncomingMessage(incoming(ConversationKind::Group, "42", "7", 5));
    let (batch, step) = batch.receive(last, false);
    assert_eq!(step, BatchStep::Full);
    assert_eq!(batch.done().len(), 5);
}

#[test]
fn a_reset_command_clears_the_filter() {
    let mut filter = ConversationFilter::new();
    let mut control = ConversationControl::default();
    control.set_ai_filter_bypassed(true);
    assert!(!apply_command_output(
        &CommandOutput::reply("好".to_string()),
        &mut filter,
        &mut control
    ));
    assert!(control.ai_filter_bypassed());
    assert!(apply_command_output(
        &CommandOutput::conversation_reset("好".to_string()),
        &mut filter,
        &mut control
    ));
    assert!(!control.ai_filter_bypassed());
}

fn filtered(kind: ConversationKind) -> Vec<FilteredMessage> {
    vec![FilteredMessage {
        message: incoming(kind, "42", "7", 1),
        database_id: 1,
    }]
}

#[test]
fn only_a_clear_word_holds_messages_back() {
    assert_eq!(parse_filter_action(" REPLY \n"), Some(FilterAction::Reply));
    assert_eq!(parse_filter_action("ignore"), Some(FilterAction::Ignore));
    assert_eq!(parse_filter_action("maybe"), None);
    let mut control = ConversationControl::default();
    assert!(!settle(&Some("ignore".to_string()), &mut control));
    assert!(!control.ai_filter_bypassed());
    assert!(settle(&Some("unclear".to_string()), &mut control));
    assert!(settle(&None, &mut control));
    assert!(!control.ai_filter_bypassed());
    assert!(settle(&Some("reply".to_string()), &mut control));
    assert!(control.ai_filter_bypassed());
}

#[test]
fn the_filter_is_asked_in_groups_only() {
    let group = filtered(ConversationKind::Group);
    assert!(ai_filter_enabled_for("model", &group));
    assert!(!ai_filter_enabled_for(" ", &group));
    assert!(!ai_filter_enabled_for("model", &filtered(ConversationKind::Direct)));
    assert_eq!(first_step("model", &group), FilterStep::ReadHistory);
    assert_eq!(first_step("", &group), FilterStep::Pass);
    let mut control = ConversationControl::default();
    assert_eq!(second_step(true, &control, &group), FilterStep::Ask);
    assert_eq!(second_step(false, &control, &group), FilterStep::Pass);
    let mut mentioned = filtered(ConversationKind::Group);
    mentioned[0].message.content.parts.push(mention("100"));
    assert_eq!(second_step(true, &control, &mentioned), FilterStep::Pass);
    control.set_ai_filter_bypassed(true);
    assert_eq!(second_step(true, &control, &group), FilterStep::Pass);
}

#[test]
fn the_filter_reads_a_short_history() {
    let mut context: Vec<ContextMessage> = (0..100)
        .map(|i| ContextMessage {
            role: MessageRole::User,
            content: format!("{}", i),
        })
        .collect();
    trim_filter_context(&mut context);
    assert!(context.len() < 100);
    assert_eq!(context.last().unwrap().content, "99");
}

#[test]
fn user_content_keeps_its_pieces() {
    let mut content = ToolChatUserContent::text("甲");
    content.push_text("乙");
    assert_eq!(content.as_text(), Some("甲乙"));
    content.push_image("data:image/png;base64,YQ==".to_string());
    assert_eq!(content.as_text(), None);
    assert_eq!(
        content.parts()[1],
        ToolChatContentPart::Image {
            data_url: "data:image/png;base64,YQ==".to_string()
        }
    );
}

#[test]
fn messages_before_the_filter_are_logged_line_by_line() {
    let mut messages = filtered(ConversationKind::Group);
    messages.extend(filtered(ConversationKind::Group));
    messages[0].message.sender.nickname = Some("小明".to_string());
    messages[0].message.content.text = "早".to_string();
    messages[1].message.sender.display_name = "阿红".to_string();
    messages[1].message.sender.nickname = None;
    messages[1].message.content.text = "好".to_string();
    assert_eq!(render_current_messages_log(&messages), "小明: 早\n阿红: 好");
    assert_eq!(render_current_messages_log(&vec![]), "");
}

#[test]
fn messages_are_gathered_for_two_seconds() {
    assert_eq!(MESSAGE_BATCH_WAIT_SECS, 2);
    let message = |timestamp: i64| incoming(ConversationKind::Direct, "7", "7", timestamp);
    let mut batch = CollectedMessages::new(message(0));
    for timestamp in 1..5 {
        assert!(batch.takes_more());
        batch = batch.receive(message(timestamp));
    }
    assert!(!batch.takes_more());
    let ids: Vec<String> = batch
        .done()
        .into_iter()
        .map(|message| message.message_id.unwrap())
        .collect();
    assert_eq!(ids, ["m0", "m1", "m2", "m3", "m4"]);
}

#[test]
fn a_plan_may_be_written_without_names() {
    let plan = parse_action_plan(
        r#"["calm", [["send_message", ["hi"]], {"action": "web_search", "payload": ["rust"]}, ["wait_then_check", [5, "later"]]]]"#,
    )
    .unwrap();
    assert_eq!(plan.mind_state, "calm");
    assert_eq!(
        action_names(&plan.actions),
        "[send_message, web_search, wait_then_check]"
    );
    assert!(parse_action_plan(r#"["calm"]"#).is_none());
    assert!(parse_action_plan(r#"["calm", [["send_message", ["hi", "there"]]]]"#).is_none());
}
