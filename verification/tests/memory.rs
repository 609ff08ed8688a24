use rolava::json::Json;
use rolava::memory::format_memory_time;
use rolava::memory::group_memory::{
    delete_memory_reply, plan_delete_memory, plan_set_memory, render_prompt, set_memory_reply,
    GroupMemory, MemoryError,
};
use rolava::memory::member_profile::{has_profiles, profile_request, profile_url, read_profile};
use rolava::memory::user_memory::{
    apply_profile, collect_candidates, collect_current_candidates, created_reply, deleted_reply,
    draw_memory_id, mentioned_user_id, render_prompt as render_user_prompt, resolve_profile,
    stored_message_mentions, updated_reply, ActiveUserCandidate, ProfileStep, UserMemoryError,
    UserMemorySession,
};
use rolava::repository::db_manager::ChatMessage;
use rolava::repository::user_memory::UserMemoryRecord;
use rolava::transport::{
    ContentPart, Conversation, ConversationKind, IncomingMessage, MessageContent, MessageTarget,
    Sender,
};

fn memory(id: i64, title: &str, expires_at: i64) -> GroupMemory {
    GroupMemory {
        id,
        title: title.to_string(),
        content: "内容".to_string(),
        expires_at,
        updated_on: "2026-01-01".to_string(),
    }
}

#[test]
fn memories_are_shown_with_their_days() {
    let (text, expired) = render_prompt(
        &vec![memory(1, "甲", 0), memory(2, "乙", 50), memory(3, "丙", 86_401)],
        100,
    );
    assert!(text.contains("甲"));
    assert!(text.contains("长期（永不过期）"));
    assert!(text.contains("0天（已到期，即将遗忘）"));
    assert!(text.contains("1天"));
    assert_eq!(expired, vec![2]);
    let (none, ids) = render_prompt(&vec![], 100);
    assert!(!none.is_empty());
    assert!(ids.is_empty());
}

#[test]
fn memories_are_planned() {
    let titles = vec!["旧".to_string()];
    let new = plan_set_memory(" 新 ", &Some(" 内容 ".to_string()), Some(2), &titles, 100).unwrap();
    assert_eq!(new.title, "新");
    assert_eq!(new.content.as_deref(), Some("内容"));
    assert_eq!(new.expires_at, Some(100 + 2 * 86_400));
    let forever = plan_set_memory("旧", &None, Some(0), &titles, 100).unwrap();
    assert_eq!(forever.expires_at, Some(0));
    let refused = |title: &str, content: Option<&str>, days: Option<u16>| {
        plan_set_memory(title, &content.map(str::to_string), days, &titles, 100).unwrap_err()
    };
    assert_eq!(refused(" ", Some("a"), Some(1)), MemoryError::EmptyTitle);
    assert_eq!(refused("a\nb", Some("a"), Some(1)), MemoryError::TitleHasLines);
    assert_eq!(refused(&"a".repeat(51), Some("a"), Some(1)), MemoryError::LongTitle);
    assert_eq!(refused("a", Some(" "), Some(1)), MemoryError::EmptyContent);
    assert_eq!(refused("a", Some(&"a".repeat(1001)), Some(1)), MemoryError::LongContent);
    assert_eq!(refused("a", Some("a"), Some(366)), MemoryError::LongRetention);
    assert_eq!(refused("旧", None, None), MemoryError::NothingToChange);
    assert_eq!(refused("新", Some("a"), None), MemoryError::IncompleteNew);
    assert_eq!(
        delete_memory_reply("无", false).unwrap_err(),
        MemoryError::NotFound {
            title: "无".to_string()
        }
    );
    assert_eq!(plan_delete_memory(" 旧 ").unwrap(), "旧");
    assert!(set_memory_reply("新", true, &Some("乙".to_string())).contains("乙"));
    assert!(MemoryError::LongTitle.message().contains("50"));
    assert_eq!(format_memory_time(i64::MAX), None);
    assert_eq!(format_memory_time(1_750_000_000).unwrap().len(), 10);
}

fn stored(id: i64, sender: &str, parts: &str) -> ChatMessage {
    ChatMessage {
        id,
        conversation_id: 1,
        source: "qq".to_string(),
        source_conversation_id: "42".to_string(),
        conversation_kind: "group".to_string(),
        source_message_id: None,
        sender_id: sender.to_string(),
        sender_display_name: format!("名片{}", sender),
        sender_nickname: Some(format!("昵称{}", sender)),
        sender_role: None,
        content_text: Some("正文".to_string()),
        message_type: "text".to_string(),
        content_parts_json: parts.to_string(),
        metadata_json: "{}".to_string(),
        is_read: true,
        event_timestamp: id,
        created_at: id,
    }
}

#[test]
fn people_who_write_or_are_mentioned_are_remembered() {
    let history = vec![
        stored(1, "7", "[]"),
        stored(2, "100", "[]"),
        stored(3, "8", r#"[{"kind":"at","data":{"qq":"9"}},{"kind":"at","data":{"qq":"all"}}]"#),
    ];
    assert_eq!(stored_message_mentions(&history[2], "100"), vec!["9".to_string()]);
    assert_eq!(mentioned_user_id(&Json::Unsigned(5), "100").as_deref(), Some("5"));
    assert_eq!(mentioned_user_id(&Json::Text("100".to_string()), "100"), None);
    let candidates = collect_candidates(&history, "100");
    let mut ids: Vec<&str> = candidates
        .iter()
        .map(|candidate| candidate.user_id.as_str())
        .collect();
    ids.sort();
    assert_eq!(ids, vec!["7", "8", "9"]);
    let mut session = UserMemorySession::new();
    let resolved: Vec<ActiveUserCandidate> = candidates
        .into_iter()
        .map(|mut candidate| {
            if candidate.qq_nickname.is_none() {
                candidate.qq_nickname = Some("某人".to_string());
            }
            candidate
        })
        .collect();
    session.apply_candidates(&resolved);
    assert!(session.is_active("7"));
    assert!(!session.is_active("100"));
    let memories: Vec<Vec<UserMemoryRecord>> = session
        .active_users
        .iter()
        .map(|user| {
            if user.user_id == "7" {
                vec![UserMemoryRecord {
                    memory_id: "mem_1".to_string(),
                    content: "喜欢猫".to_string(),
                }]
            } else {
                vec![]
            }
        })
        .collect();
    let shown = render_user_prompt(&session, &memories);
    assert!(shown.contains("mem_1"));
    assert!(shown.contains("喜欢猫"));
    assert!(!session.retain_visible(Some(3)));
    assert!(!session.is_active("7"));
    assert!(session.is_active("8"));
    assert!(session.retain_visible(Some(9)));
    session.reset();
    assert_eq!(
        render_user_prompt(&session, &vec![]),
        "当前没有最近活跃用户"
    );
}

#[test]
fn names_come_from_the_platform() {
    let session = UserMemorySession::new();
    let mut candidate = ActiveUserCandidate {
        user_id: "7".to_string(),
        qq_nickname: None,
        group_card: None,
        last_relevant_message_id: 1,
    };
    assert_eq!(resolve_profile(&mut candidate, &session), ProfileStep::Fetch);
    let reply = Json::Object(vec![
        ("retcode".to_string(), Json::Unsigned(0)),
        (
            "data".to_string(),
            Json::Object(vec![
                ("nickname".to_string(), Json::Text("昵称".to_string())),
                ("card".to_string(), Json::Text("名片".to_string())),
            ]),
        ),
    ]);
    let profile = read_profile(&reply).unwrap();
    apply_profile(&mut candidate, &profile);
    assert_eq!(candidate.qq_nickname.as_deref(), Some("昵称"));
    assert_eq!(resolve_profile(&mut candidate, &session), ProfileStep::Known);
    assert_eq!(
        profile_url("http://127.0.0.1:3000/"),
        "http://127.0.0.1:3000/get_group_member_info"
    );
    assert_eq!(
        profile_request("42", "7").text_at("user_id").as_deref(),
        Some("7")
    );
    let target = |source: &str, kind: ConversationKind| MessageTarget {
        source: source.to_string(),
        bot_id: "100".to_string(),
        conversation: Conversation {
            id: "42".to_string(),
            kind,
            title: None,
        },
    };
    assert!(has_profiles(&target("onebot", ConversationKind::Group)));
    assert!(!has_profiles(&target("onebot", ConversationKind::Direct)));
    assert!(!has_profiles(&target("other", ConversationKind::Group)));
}

#[test]
fn changes_need_an_active_person() {
    let mut session = UserMemorySession::new();
    session.apply_candidates(&vec![ActiveUserCandidate {
        user_id: "7".to_string(),
        qq_nickname: Some("昵称".to_string()),
        group_card: None,
        last_relevant_message_id: 1,
    }]);
    let change = session.plan_change(" 7 ", None, Some(" 喜欢猫 ")).unwrap();
    assert_eq!(change.user_id, "7");
    assert_eq!(change.content.as_deref(), Some("喜欢猫"));
    assert_eq!(
        session.plan_change(" ", None, Some("a")).unwrap_err(),
        UserMemoryError::EmptyUser
    );
    assert_eq!(
        session.plan_change("8", None, Some("a")).unwrap_err(),
        UserMemoryError::NotActive {
            user_id: "8".to_string()
        }
    );
    assert_eq!(
        session.plan_change("7", None, Some(" ")).unwrap_err(),
        UserMemoryError::EmptyContent
    );
    assert_eq!(
        session.plan_change("7", Some(" "), None).unwrap_err(),
        UserMemoryError::EmptyId
    );
    assert!(matches!(
        updated_reply("7", "m", false),
        Err(UserMemoryError::NotFound { .. })
    ));
    assert!(deleted_reply("7", "m", true).is_ok());
    assert!(created_reply("mem_1").contains("mem_1"));
    let id = draw_memory_id(0).unwrap();
    assert_ne!(Some(id), draw_memory_id(0));
    assert_eq!(draw_memory_id(u32::MAX), None);
}

#[test]
fn people_in_new_messages_are_remembered() {
    let message = IncomingMessage {
        source: "qq".to_string(),
        bot_id: "100".to_string(),
        message_id: None,
        conversation: Conversation {
            id: "42".to_string(),
            kind: ConversationKind::Group,
            title: None,
        },
        sender: Sender {
            id: "7".to_string(),
            display_name: "名片".to_string(),
            nickname: Some("昵称".to_string()),
            role: None,
        },
        content: MessageContent {
            text: "看".to_string(),
            parts: vec![ContentPart {
                kind: "at".to_string(),
                data: Json::Object(vec![("qq".to_string(), Json::Text("9".to_string()))]),
            }],
        },
        metadata: Json::Null,
        timestamp: 1,
    };
    let candidates = collect_current_candidates(&vec![message], &vec![5], "100");
    assert!(candidates
        .iter()
        .any(|candidate| candidate.user_id == "9" && candidate.last_relevant_message_id == 5));
    assert!(candidates
        .iter()
        .any(|candidate| candidate.user_id == "7" && candidate.last_relevant_message_id == 5));
}
