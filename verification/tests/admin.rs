use rolava::admin::api::{
    character_memory_item, check_direction, conversation_detail, conversation_limit,
    conversation_summary, day_start, ensure_conversation_member, fetched_members, has_model_list,
    image_id_fits, infer_model_vision, is_authorized, login_info_url, message_item,
    message_target, models_url, next_before_id, next_cursor, onebot_test_result,
    onebot_test_token, openai_style_models, parse_cursor, plan_character_memory_update,
    plan_members, resolve_provider_key, save_outcome, stale_members, status_response, task_item,
    unauthorized, uptime_seconds, user_memories, wanted_kind, CursorError, GoogleModels,
    MembersPlan, ModelListError, ProgramStatus,
};
use rolava::admin::config_store::{
    action_name_of_file, admin_token, config_path, list_prompt_files, model_row,
    prompt_can_be_saved, provider_key, provider_row, resolve_prompt_path, server_row,
    validate_update, AdminAppConfig, AdminConfigUpdate, AdminConfigView, AdminModelConfig,
    AdminProviderConfig, AdminServerConfig, PromptError, UpdateError,
};
use rolava::admin::config_text::{ensure_admin_token, list_edits, write_admin_config, ConfigTextError};
use rolava::admin::log_buffer::{AdminLogBuffer, AdminLogEntry};
use rolava::admin::skill_store::{
    list_skill_files, list_skills, name_is_free, normalize_enabled_names, scan_step,
    AdminSkillFile, ScanStep,
};
use rolava::config::{AppSection, ModelFeatureState, ProviderConfig, ServerSection};
use rolava::json::Json;
use rolava::local_time::local_time;
use rolava::repository::character_memory::CharacterMemoryRecord;
use rolava::repository::db_manager::{
    AdminConversationSummary, AdminDatabaseStats, ChatMessage, ConversationRecord,
};
use rolava::repository::user_memory::OwnedUserMemoryRecord;
use rolava::runtime_state::{
    CachedGroupMembers, RuntimeGroupInfo, RuntimeGroupMember, RuntimeState,
};
use rolava::scheduler::model::ScheduledTask;
use rolava::skills::loader::SkillCatalog;
use rolava::skills::model::{SkillEntry, SkillMetadata};
use rolava::transport::ConversationKind;

fn texts(list: &[&str]) -> Vec<String> {
    list.iter().map(|text| text.to_string()).collect()
}

fn json(text: &str) -> Json {
    fn convert(value: &serde_json::Value) -> Json {
        match value {
            serde_json::Value::Null => Json::Null,
            serde_json::Value::Bool(b) => Json::Bool(*b),
            serde_json::Value::Number(n) => match n.as_u64() {
                Some(u) => Json::Unsigned(u),
                None => Json::Negative(n.as_i64().unwrap()),
            },
            serde_json::Value::String(s) => Json::Text(s.clone()),
            serde_json::Value::Array(items) => Json::Array(items.iter().map(convert).collect()),
            serde_json::Value::Object(fields) => Json::Object(
                fields
                    .iter()
                    .map(|(key, value)| (key.clone(), convert(value)))
                    .collect(),
            ),
        }
    }
    convert(&serde_json::from_str(text).unwrap())
}

fn log_entry(message: &str) -> AdminLogEntry {
    AdminLogEntry {
        id: 0,
        timestamp: 1,
        level: "INFO".to_string(),
        target: "rolava".to_string(),
        message: message.to_string(),
        fields: String::new(),
    }
}

#[test]
fn ring_buffer_discards_oldest_entries_and_reports_cursor_gap() {
    let mut buffer = AdminLogBuffer::new(2);
    for message in ["one", "two", "three"] {
        buffer.push(log_entry(message));
    }
    let page = buffer.read_after(Some(0), 10);
    assert!(page.truncated);
    assert_eq!(page.latest_id, 3);
    assert_eq!(
        page.items
            .iter()
            .map(|entry| entry.message.as_str())
            .collect::<Vec<_>>(),
        vec!["two", "three"]
    );
}

#[test]
fn a_page_of_the_log_follows_the_last_one() {
    let mut buffer = AdminLogBuffer::new(10);
    for message in ["one", "two", "three"] {
        buffer.push(log_entry(message));
    }
    let page = buffer.read_after(Some(1), 10);
    assert!(!page.truncated);
    assert_eq!(page.items.len(), 2);
    assert_eq!(page.items[0].id, 2);
    let latest = buffer.read_after(None, 1);
    assert_eq!(latest.items.len(), 1);
    assert_eq!(latest.items[0].message, "three");
}

#[test]
fn empty_admin_token_is_generated_once() {
    let source = "[admin]\ntoken = \"\"\n";
    let (generated, text) = ensure_admin_token(source).unwrap();
    let text = text.unwrap();
    let (loaded_again, unchanged) = ensure_admin_token(&text).unwrap();
    assert!(generated.generated);
    assert!(!loaded_again.generated);
    assert_eq!(unchanged, None);
    assert_eq!(generated.token, loaded_again.token);
    assert!(generated.token.len() >= 40);
    assert!(text.contains(&generated.token));
    assert_eq!(generated.token.len(), 43);
    assert!(generated
        .token
        .chars()
        .all(|c| c.is_ascii_alphanumeric() || c == '-' || c == '_'));
    assert_eq!(text, format!("[admin]\ntoken = \"{}\"\n", generated.token));
    assert_ne!(admin_token(None).token, generated.token);
    assert_eq!(admin_token(Some("  given ")).token, "given");
}

#[test]
fn a_token_is_put_where_there_is_none() {
    for source in [
        "",
        "# head\n[app]\nname = \"x\" # kept\n",
        "[admin]\n# why\ntoken = 5\n",
        "admin = { port = 1 }\n",
        "[admin.sub]\nx = 1\n",
        "admin.x = 1\n",
    ] {
        let (token, text) = ensure_admin_token(source).unwrap();
        let text = text.unwrap();
        assert!(token.generated);
        let (again, unchanged) = ensure_admin_token(&text).unwrap();
        assert_eq!(again.token, token.token);
        assert_eq!(unchanged, None);
        for line in source.lines().filter(|line| line.contains('#')) {
            assert!(text.contains(line));
        }
    }
    let (given, unchanged) = ensure_admin_token("admin = { token = \" given \" }").unwrap();
    assert_eq!(given.token, "given");
    assert_eq!(unchanged, None);
    assert_eq!(
        ensure_admin_token("[admin").unwrap_err(),
        ConfigTextError::NotToml
    );
    assert_eq!(
        ensure_admin_token("admin = 5\n").unwrap_err(),
        ConfigTextError::NoTable
    );
    assert_eq!(
        ConfigTextError::NotToml.message(),
        "解析配置 TOML 失败"
    );
}

/// A configuration as it stands before a change.
const CONFIG: &str = "# head\n[app]\nchat_model_name = \"old\" # chat\nprompt_dir = \"prompts\"\nenable_ai_filter = true\nsplit_reply_on_newlines = false\n\n[server]\nserver_host = \"h\"\nserver_token = \"keep\"\n\n[admin]\ntoken = \"t\"\n\n[[providers]]\nname = \"p\"\ntype = \"openrouter\"\nkey = \"it's \\\"secret\\\"\"\nbase_url = \"u\"\n\n[[providers]]\nname = \"nameless key\"\n\n[[models]]\nname = \"old\"\n";

#[test]
fn a_change_is_written_into_the_configuration() {
    let tools = texts(&["wait", "search", "agent_web_search"]);
    let text = write_admin_config(CONFIG, &update(), true, &tools).unwrap();
    let read: toml::Table = text.parse().unwrap();
    assert_eq!(
        read["app"]["chat_model_name"].as_str(),
        Some(update().app.chat_model_name.as_str())
    );
    assert_eq!(read["app"]["prompt_dir"].as_str(), Some("prompts"));
    assert_eq!(
        read["app"]["max_history_messages"].as_integer(),
        Some(i64::from(update().app.max_history_messages))
    );
    assert!(read["app"].get("enable_ai_filter").is_none());
    assert!(read["app"].get("split_reply_on_newlines").is_none());
    assert_eq!(
        read["app"]["enabled_actions"].as_array().unwrap().len(),
        update().app.enabled_actions.len()
    );
    assert_eq!(read["server"]["server_host"].as_str(), Some("0.0.0.0"));
    assert_eq!(read["server"]["server_port"].as_integer(), Some(8080));
    assert_eq!(
        read["server"]["onebot_api"].as_str(),
        Some("http://127.0.0.1:3000")
    );
    assert_eq!(read["server"]["server_token"].as_str(), Some("keep"));
    assert_eq!(read["server"]["onebot_token"].as_str(), Some("new"));
    assert_eq!(read["admin"]["token"].as_str(), Some("t"));
    let providers = read["providers"].as_array().unwrap();
    assert_eq!(providers.len(), 1);
    assert_eq!(providers[0]["key"].as_str(), Some("it's \"secret\""));
    let models = read["models"].as_array().unwrap();
    assert_eq!(models[0]["name"].as_str(), Some("m"));
    assert_eq!(models[0]["provider"].as_str(), Some("p"));
    assert!(text.starts_with("# head\n[app]\n"));
    let again = write_admin_config(&text, &update(), true, &tools).unwrap();
    assert_eq!(again, text);
}

#[test]
fn changes_that_cannot_be_written_are_refused() {
    let tools = texts(&["wait", "search", "agent_web_search"]);
    let refused = |source: &str, change: &dyn Fn(&mut AdminConfigUpdate)| {
        let mut changed = update();
        change(&mut changed);
        write_admin_config(source, &changed, true, &tools).unwrap_err()
    };
    assert_eq!(
        refused(CONFIG, &|u| u.app.max_history_messages = 0),
        ConfigTextError::Refused(UpdateError::NoHistory)
    );
    assert_eq!(refused("[app", &|_| {}), ConfigTextError::NotToml);
    assert_eq!(refused("app = 1\n", &|_| {}), ConfigTextError::NoTable);
    assert_eq!(
        refused(CONFIG, &|u| u.app.chat_model_name = "'".repeat(256)),
        ConfigTextError::Unwritable
    );
    assert_eq!(
        refused(CONFIG, &|u| u.models[0].model = "\"".repeat(256)),
        ConfigTextError::Unwritable
    );
    let mut long = update();
    long.app.chat_model_name = "'".repeat(255);
    let text = write_admin_config(CONFIG, &long, true, &tools).unwrap();
    let read: toml::Table = text.parse().unwrap();
    assert_eq!(
        read["app"]["chat_model_name"].as_str(),
        Some("'".repeat(255).as_str())
    );
}

#[test]
fn the_changes_of_a_table_are_listed_in_order() {
    let edits = list_edits(&update());
    assert_eq!(edits.len(), 18);
    assert_eq!((edits[0].table, edits[0].key), ("app", "chat_model_name"));
    assert_eq!(edits[12].key, "split_reply_on_newlines");
    assert_eq!(edits[12].entry, None);
    assert_eq!((edits[14].table, edits[14].key), ("server", "server_host"));
    assert_eq!(edits[17].key, "onebot_token");
}

#[test]
fn only_the_token_opens_the_pages() {
    assert!(is_authorized(Some("Bearer secret"), "secret"));
    assert!(!is_authorized(Some("Bearer secres"), "secret"));
    assert!(!is_authorized(Some("Bearer secret2"), "secret"));
    assert!(!is_authorized(Some("bearer secret"), "secret"));
    assert!(!is_authorized(None, "secret"));
    assert_eq!(unauthorized().status, 401);
}

fn app_config() -> AdminAppConfig {
    AdminAppConfig {
        chat_model_name: "chat".to_string(),
        filter_model_name: String::new(),
        web_search_model_name: String::new(),
        visual_model_name: String::new(),
        max_history_messages: 10,
        vision_image_message_window: 3,
        ai_request_retry_count: 1,
        ai_request_timeout_seconds: 30,
        enabled_actions: texts(&["wait", " search "]),
        direct_whitelist: vec![],
        group_whitelist: vec![],
        command_whitelist: vec![],
    }
}

fn provider(name: &str, key: Option<&str>) -> AdminProviderConfig {
    AdminProviderConfig {
        name: name.to_string(),
        original_name: None,
        kind: "openrouter".to_string(),
        base_url: " https://example.com// ".to_string(),
        key_configured: false,
        key: key.map(str::to_string),
    }
}

fn model(name: &str, provider: &str) -> AdminModelConfig {
    AdminModelConfig {
        name: name.to_string(),
        provider: provider.to_string(),
        model: " gpt ".to_string(),
        max_tokens: Some(100),
        reasoning_effort: "low".to_string(),
        vision: ModelFeatureState::Enable,
    }
}

fn update() -> AdminConfigUpdate {
    AdminConfigUpdate {
        app: app_config(),
        server: AdminServerConfig {
            server_host: " 0.0.0.0 ".to_string(),
            server_port: 8080,
            server_token_configured: false,
            server_token: Some(String::new()),
            onebot_api: " http://127.0.0.1:3000/ ".to_string(),
            onebot_token_configured: false,
            onebot_token: Some("new".to_string()),
        },
        providers: vec![provider("p", None)],
        models: vec![model("m", " p ")],
    }
}

#[test]
fn changes_of_the_configuration_are_checked() {
    let tools = texts(&["wait", "search", "agent_web_search"]);
    let refused = |change: &dyn Fn(&mut AdminConfigUpdate)| {
        let mut changed = update();
        change(&mut changed);
        validate_update(&changed, true, &tools).unwrap_err()
    };
    assert_eq!(validate_update(&update(), true, &tools), Ok(()));
    assert_eq!(
        validate_update(&update(), false, &tools),
        Err(UpdateError::BadDelay)
    );
    assert_eq!(
        refused(&|u| u.app.max_history_messages = 0),
        UpdateError::NoHistory
    );
    assert_eq!(
        refused(&|u| u.server.server_host = " ".to_string()),
        UpdateError::MissingAddress
    );
    assert_eq!(
        refused(&|u| u.app.enabled_actions.push("wait ".to_string())),
        UpdateError::DuplicateTool
    );
    assert_eq!(
        refused(&|u| u.app.enabled_actions.push("fly".to_string())),
        UpdateError::UnknownTool {
            name: "fly".to_string()
        }
    );
    assert_eq!(
        refused(&|u| u.app.enabled_actions.push("agent_web_search".to_string())),
        UpdateError::NoSearchModel
    );
    assert_eq!(
        refused(&|u| u.providers.push(provider(" p", None))),
        UpdateError::BadProviderNames
    );
    assert_eq!(
        refused(&|u| u.models.push(model(" ", "p"))),
        UpdateError::BadModelNames
    );
    assert_eq!(
        refused(&|u| u.models.push(model("n", "q"))),
        UpdateError::UnknownProvider {
            model: "n".to_string()
        }
    );
    let limit = refused(&|u| u.models[0].max_tokens = Some(0));
    assert_eq!(
        limit,
        UpdateError::BadMaxTokens {
            model: "m".to_string()
        }
    );
    assert_eq!(limit.message(), "模型 m 的最大输出长度必须大于 0");
}

#[test]
fn keys_are_kept_unless_a_new_one_is_given() {
    let saved = vec![
        ("p".to_string(), "first".to_string()),
        ("q".to_string(), "second".to_string()),
        ("p".to_string(), "last".to_string()),
    ];
    assert_eq!(provider_key(&provider("p", Some("new")), &saved), "new");
    assert_eq!(provider_key(&provider(" p ", Some("")), &saved), "last");
    let mut renamed = provider("r", None);
    renamed.original_name = Some("q".to_string());
    assert_eq!(provider_key(&renamed, &saved), "second");
    assert_eq!(provider_key(&provider("s", None), &saved), "");
    let row = provider_row(&provider(" p ", None), &saved);
    assert_eq!(row.name, "p");
    assert_eq!(row.base_url, "https://example.com");
    assert_eq!(model_row(&model("m", "p")).model, "gpt");
    let server = server_row(&update().server);
    assert_eq!(server.server_host, "0.0.0.0");
    assert_eq!(server.onebot_api, "http://127.0.0.1:3000");
    assert_eq!(server.server_token, None);
    assert_eq!(server.onebot_token.as_deref(), Some("new"));
}

#[test]
fn pages_never_show_keys() {
    let app = AppSection {
        prompt_dir: "prompts".to_string(),
        max_history_messages: 10,
        vision_image_message_window: 3,
        chat_model_name: "chat".to_string(),
        filter_model_name: "filter".to_string(),
        enable_ai_filter: true,
        web_search_model_name: "search".to_string(),
        visual_model_name: "eye".to_string(),
        ai_request_retry_count: 1,
        ai_request_timeout_seconds: 30,
        received_image_dir: "images".to_string(),
        enabled_actions: texts(&["wait"]),
        direct_whitelist: vec![],
        group_whitelist: texts(&["1"]),
        command_whitelist: vec![],
        split_reply_on_newlines: true,
    };
    let server = ServerSection {
        server_host: "h".to_string(),
        server_port: 1,
        server_token: "secret".to_string(),
        onebot_api: "o".to_string(),
        onebot_token: String::new(),
    };
    let saved = vec![ProviderConfig {
        name: "p".to_string(),
        kind: "openrouter".to_string(),
        key: "secret".to_string(),
        base_url: "u".to_string(),
    }];
    let view = AdminConfigView::from_config(&app, &server, &saved, &vec![]);
    assert!(view.server.server_token_configured);
    assert!(!view.server.onebot_token_configured);
    assert_eq!(view.server.server_token, None);
    assert!(view.providers[0].key_configured);
    assert_eq!(view.providers[0].key, None);
    assert_eq!(view.providers[0].original_name.as_deref(), Some("p"));
    assert_eq!(view.app.group_whitelist, texts(&["1"]));
}

#[test]
fn prompts_are_found_by_their_numbers() {
    let prompts = list_prompt_files(texts(&["wait", "ask"]));
    let ids: Vec<&str> = prompts.iter().map(|prompt| prompt.id.as_str()).collect();
    assert_eq!(
        ids,
        vec![
            "system",
            "character",
            "instruction",
            "filter",
            "internal:image_description",
            "internal:web_search_agent",
            "internal:scheduled_task",
            "internal:scheduled_task_recovery",
            "internal:wait_for_reply_timeout",
            "action:ask",
            "action:wait",
        ]
    );
    assert_eq!(prompts[9].name, "ask.md");
    assert_eq!(prompts[9].category, "action");
    for prompt in &prompts {
        assert!(resolve_prompt_path(&prompt.id).is_ok());
    }
    let action = resolve_prompt_path("action:web-search_2").unwrap();
    assert_eq!(action.directory, Some("actions"));
    assert_eq!(action.file_name, "web-search_2.md");
    assert_eq!(
        resolve_prompt_path("action:../secret"),
        Err(PromptError::BadActionName)
    );
    assert_eq!(
        resolve_prompt_path("internal:other"),
        Err(PromptError::UnknownInternal)
    );
    assert_eq!(resolve_prompt_path("other"), Err(PromptError::Unknown));
    assert_eq!(resolve_prompt_path("action:"), Err(PromptError::Unknown));
    assert_eq!(action_name_of_file("wait.md").as_deref(), Some("wait"));
    assert_eq!(action_name_of_file("wait.txt"), None);
    assert!(!prompt_can_be_saved(" \n"));
    assert!(prompt_can_be_saved("x"));
    assert_eq!(config_path(), "config/meta.toml");
}

#[test]
fn the_platform_is_tested() {
    assert_eq!(
        login_info_url(" http://127.0.0.1:3000// "),
        "http://127.0.0.1:3000/get_login_info"
    );
    assert_eq!(onebot_test_token(&Some(String::new()), "set"), "set");
    assert_eq!(onebot_test_token(&Some("new".to_string()), "set"), "new");
    assert_eq!(
        onebot_test_result(true, "200 OK", &json("{\"retcode\":0,\"data\":{\"user_id\":42}}")),
        Ok("42".to_string())
    );
    assert_eq!(
        onebot_test_result(true, "200 OK", &json("{\"retcode\":0,\"data\":{\"user_id\":\"7\"}}")),
        Ok("7".to_string())
    );
    let missing = onebot_test_result(true, "200 OK", &json("{\"retcode\":0}")).unwrap_err();
    assert_eq!(missing.status, 502);
    assert_eq!(missing.message, "OneBot 响应缺少 data.user_id");
    let failed = onebot_test_result(true, "200 OK", &json("{\"retcode\":-1}")).unwrap_err();
    assert_eq!(
        failed.message,
        "OneBot 测试失败：HTTP 200 OK，响应 {\"retcode\":-1}"
    );
    assert!(onebot_test_result(false, "500", &json("{\"retcode\":0}")).is_err());
}

#[test]
fn models_are_listed() {
    assert!(has_model_list("openrouter"));
    assert!(!has_model_list("anthropic"));
    assert_eq!(
        models_url("openrouter", " "),
        "https://openrouter.ai/api/v1/models"
    );
    assert_eq!(
        models_url("google_aistudio", ""),
        "https://generativelanguage.googleapis.com/v1beta/models"
    );
    assert_eq!(models_url("other", "http://x/ "), "http://x/models");
    let items = openai_style_models(
        "{\"data\":[{\"id\":\"models/a\",\"name\":\"A\"},{\"id\":1},{\"name\":\"models/b\"}]}",
    )
    .unwrap();
    assert_eq!(items.len(), 2);
    assert_eq!((items[0].id.as_str(), items[0].name.as_str()), ("a", "A"));
    assert_eq!((items[1].id.as_str(), items[1].name.as_str()), ("b", "b"));
    assert_eq!(
        openai_style_models("no json").unwrap_err(),
        ModelListError::NotJson
    );
    assert_eq!(
        openai_style_models("{}").unwrap_err(),
        ModelListError::NoList
    );
    assert_eq!(
        ModelListError::NoList.answer(true).message,
        "Google 模型列表响应缺少 models 数组"
    );
}

#[test]
fn a_model_tells_whether_it_takes_images() {
    assert_eq!(infer_model_vision(&json("{\"vision\":true}")), Some(true));
    assert_eq!(
        infer_model_vision(&json("{\"capabilities\":{\"vision\":false},\"vision\":true}")),
        Some(false)
    );
    assert_eq!(
        infer_model_vision(&json("{\"architecture\":{\"input_modalities\":[\"text\",\"IMAGE\"]}}")),
        Some(true)
    );
    assert_eq!(infer_model_vision(&json("{\"modalities\":[\"text\"]}")), Some(false));
    assert_eq!(infer_model_vision(&json("{}")), None);
}

#[test]
fn google_is_asked_page_by_page() {
    let mut models = GoogleModels::new();
    assert_eq!(
        models.receive("{\"models\":[{\"name\":\"models/a\"}],\"nextPageToken\":\"t\"}"),
        Ok(true)
    );
    assert_eq!(models.page_token.as_deref(), Some("t"));
    assert_eq!(
        models.receive("{\"models\":[{\"name\":\"models/b\"}]}"),
        Ok(false)
    );
    assert_eq!(models.items.len(), 2);
    assert_eq!(models.items[1].id, "b");
    assert_eq!(models.receive("{}"), Err(ModelListError::NoList));
    let mut endless = GoogleModels::new();
    let mut asked = 0;
    while endless.receive("{\"models\":[],\"nextPageToken\":\"t\"}") == Ok(true) {
        asked += 1;
    }
    assert_eq!(asked, 19);
}

#[test]
fn a_provider_is_tried_with_its_key() {
    let saved = vec![ProviderConfig {
        name: "p".to_string(),
        kind: "openrouter".to_string(),
        key: "secret".to_string(),
        base_url: String::new(),
    }];
    assert_eq!(resolve_provider_key(&provider("p", None), &saved), "secret");
    assert_eq!(resolve_provider_key(&provider("p", Some("new")), &saved), "new");
    assert_eq!(resolve_provider_key(&provider("q", None), &saved), "");
}

fn conversation(id: i64, kind: &str, source_id: &str, title: Option<&str>) -> ConversationRecord {
    ConversationRecord {
        id,
        source: "qq".to_string(),
        source_conversation_id: source_id.to_string(),
        kind: kind.to_string(),
        title: title.map(str::to_string),
        metadata_json: "{}".to_string(),
        created_at: 0,
        last_message_at: 1700,
    }
}

fn summary(id: i64, kind: &str) -> AdminConversationSummary {
    AdminConversationSummary {
        conversation: conversation(id, kind, "42", Some("标题")),
        latest_sender_name: None,
        latest_content: Some("内容".to_string()),
        latest_message_at: Some(5),
        unread_count: 2,
    }
}

fn group(name: &str) -> RuntimeGroupInfo {
    RuntimeGroupInfo {
        group_id: "42".to_string(),
        name: name.to_string(),
        member_count: 3,
        max_member_count: Some(200),
    }
}

#[test]
fn lists_go_on_where_they_stopped() {
    assert_eq!(parse_cursor("1700:-3"), Ok((1700, -3)));
    assert_eq!(parse_cursor("1700"), Err(CursorError::NoColon));
    assert_eq!(parse_cursor("a:1"), Err(CursorError::BadNumber));
    assert_eq!(parse_cursor("1:2:3"), Err(CursorError::BadNumber));
    assert_eq!(conversation_limit(Some(0)), 1);
    assert_eq!(conversation_limit(None), 30);
    assert_eq!(conversation_limit(Some(1000)), 100);
    let cursor = next_cursor(&vec![summary(1, "group"), summary(9, "group")], Some(2)).unwrap();
    assert_eq!(cursor, "1700:9");
    assert_eq!(parse_cursor(&cursor), Ok((1700, 9)));
    assert_eq!(next_cursor(&vec![summary(1, "group")], Some(2)), None);
    assert_eq!(wanted_kind(Some("all".to_string())), None);
    assert_eq!(wanted_kind(Some("group".to_string())).as_deref(), Some("group"));
}

#[test]
fn conversations_are_shown_with_the_names_of_groups() {
    let shown = conversation_summary(&summary(1, "group"), Some(group("群名")));
    assert_eq!(shown.text_at("title").as_deref(), Some("群名"));
    assert_eq!(shown.unsigned_at("member_count"), Some(3));
    assert_eq!(shown.unsigned_at("unread_count"), Some(2));
    let direct = conversation_summary(&summary(1, "direct"), Some(group("群名")));
    assert_eq!(direct.text_at("title").as_deref(), Some("标题"));
    assert_eq!(direct.get("member_count"), Some(&Json::Null));
    let detail = conversation_detail(&conversation(1, "group", "42", None), Some(group("群名")));
    assert_eq!(detail.unsigned_at("max_member_count"), Some(200));
    let unknown = conversation_detail(&conversation(1, "group", "42", None), None);
    assert_eq!(unknown.get("title"), Some(&Json::Null));
}

fn message(sender: &str, parts: &str) -> ChatMessage {
    ChatMessage {
        id: 5,
        conversation_id: 1,
        source: "qq".to_string(),
        source_conversation_id: "42".to_string(),
        conversation_kind: "group".to_string(),
        source_message_id: None,
        sender_id: sender.to_string(),
        sender_display_name: "旧名".to_string(),
        sender_nickname: None,
        sender_role: None,
        content_text: None,
        message_type: "text".to_string(),
        content_parts_json: parts.to_string(),
        metadata_json: "{}".to_string(),
        is_read: true,
        event_timestamp: 7,
        created_at: 7,
    }
}

#[test]
fn messages_are_shown_under_the_name_of_the_assistant() {
    let bot = Some("100".to_string());
    let shown = message_item(&message("100", "[{\"kind\":\"face\"}]"), &bot, &Some("小助手".to_string()));
    assert_eq!(shown.text_at("sender_name").as_deref(), Some("小助手"));
    assert_eq!(shown.get("is_bot"), Some(&Json::Bool(true)));
    assert_eq!(shown.text_at("content").as_deref(), Some(""));
    assert_eq!(shown.array_at("parts").unwrap().len(), 1);
    let other = message_item(&message("7", "no json"), &bot, &Some("小助手".to_string()));
    assert_eq!(other.text_at("sender_name").as_deref(), Some("旧名"));
    assert_eq!(other.array_at("parts").unwrap().len(), 0);
    let unnamed = message_item(&message("100", "[]"), &bot, &Some(" ".to_string()));
    assert_eq!(unnamed.text_at("sender_name").as_deref(), Some("旧名"));
    assert!(check_direction(Some(1), None).is_ok());
    assert_eq!(check_direction(Some(1), Some(2)).unwrap_err().status, 400);
    assert_eq!(next_before_id(&vec![message("7", "[]")], None), Some(5));
    assert_eq!(next_before_id(&vec![message("7", "[]")], Some(1)), None);
}

fn member(id: &str) -> RuntimeGroupMember {
    RuntimeGroupMember {
        user_id: id.to_string(),
        nickname: format!("昵称{}", id),
        card: String::new(),
        role: "member".to_string(),
    }
}

fn remembered(user: &str, id: &str) -> OwnedUserMemoryRecord {
    OwnedUserMemoryRecord {
        user_id: user.to_string(),
        memory_id: id.to_string(),
        content: format!("内容{}", id),
    }
}

#[test]
fn members_are_shown_with_what_is_remembered() {
    let shown = user_memories(
        &vec![member("1"), member("2"), member("1")],
        &vec![remembered("1", "a"), remembered("2", "b"), remembered("1", "c")],
        true,
    );
    let users = shown.array_at("users").unwrap();
    assert_eq!(users.len(), 3);
    let of = |i: usize| -> Vec<String> {
        users[i]
            .array_at("memories")
            .unwrap()
            .iter()
            .map(|item| item.text_at("id").unwrap())
            .collect()
    };
    assert_eq!(of(0), texts(&["a", "c"]));
    assert_eq!(of(1), texts(&["b"]));
    assert_eq!(of(2), Vec::<String>::new());
    assert_eq!(shown.get("stale"), Some(&Json::Bool(true)));
}

#[test]
fn members_are_asked_for_again_after_a_while() {
    let direct = conversation(1, "direct", "7", None);
    match plan_members(&direct, &None, 0) {
        MembersPlan::Known { members } => {
            assert_eq!(members[0].user_id, "7");
            assert_eq!(members[0].nickname, "7");
            assert_eq!(members[0].role, "friend");
        }
        other => panic!("{:?}", other),
    }
    let cached = Some(CachedGroupMembers {
        members: vec![member("1")],
        fetched_at: 1000,
    });
    let known = conversation(1, "group", "42", None);
    assert!(matches!(
        plan_members(&known, &cached, 600_999),
        MembersPlan::Known { .. }
    ));
    assert_eq!(
        plan_members(&known, &cached, 601_000),
        MembersPlan::Fetch { group_id: 42 }
    );
    assert_eq!(
        plan_members(&conversation(1, "group", "x", None), &cached, 0),
        MembersPlan::BadGroup
    );
    assert_eq!(
        fetched_members(vec![member("1"), member("100")], &Some("100".to_string())),
        vec![member("1")]
    );
    assert_eq!(stale_members(cached, "timeout"), Ok(vec![member("1")]));
    assert_eq!(
        stale_members(None, "timeout").unwrap_err().message,
        "获取群成员失败：timeout"
    );
    assert!(ensure_conversation_member(&vec![member("1")], " 1 ").is_ok());
    assert_eq!(
        ensure_conversation_member(&vec![member("1")], "2")
            .unwrap_err()
            .status,
        400
    );
}

#[test]
fn what_is_known_of_the_platform() {
    let mut runtime = RuntimeState::default();
    runtime.set_bot_name(" ".to_string());
    assert_eq!(runtime.bot_name(), None);
    runtime.record_event(5, 100);
    assert_eq!(runtime.bot_id().as_deref(), Some("100"));
    assert_eq!(runtime.last_event_at(), Some(5));
    runtime.update_group(group("旧名"));
    runtime.update_group(group("新名"));
    assert_eq!(runtime.groups().len(), 1);
    assert_eq!(runtime.group("42").unwrap().name, "新名");
    assert!(runtime.cached_group_members("42").is_none());
    runtime.cache_group_members("42", vec![member("1")], 3);
    runtime.cache_group_members("43", vec![], 4);
    runtime.cache_group_members("42", vec![member("2")], 5);
    let cached = runtime.cached_group_members("42").unwrap();
    assert_eq!(cached.members, vec![member("2")]);
    assert_eq!(cached.fetched_at, 5);
    assert!(runtime.cached_group_members("43").unwrap().members.is_empty());
}

#[test]
fn a_memory_is_shown_with_its_days() {
    let record = |expires_at: i64| CharacterMemoryRecord {
        id: 1,
        title: "标题".to_string(),
        content: "内容".to_string(),
        expires_at,
    };
    let shown = character_memory_item(&record(86_401), 0);
    assert_eq!(shown.unsigned_at("remaining_days"), Some(2));
    assert_eq!(shown.get("expiring"), Some(&Json::Bool(false)));
    let gone = character_memory_item(&record(5), 5);
    assert_eq!(gone.unsigned_at("remaining_days"), Some(0));
    assert_eq!(gone.get("expiring"), Some(&Json::Bool(true)));
    let change = plan_character_memory_update(" 标题 ", " 内容 ", 2, 100).unwrap();
    assert_eq!(change.title, "标题");
    assert_eq!(change.content, "内容");
    assert_eq!(change.expires_at, 100 + 2 * 86_400);
    assert_eq!(
        plan_character_memory_update("标题", "内容", 0, 100)
            .unwrap_err()
            .status,
        400
    );
    assert_eq!(
        plan_character_memory_update("", "内容", 2, 100)
            .unwrap_err()
            .status,
        500
    );
}

#[test]
fn replies_go_to_stored_conversations() {
    let target = message_target(
        &conversation(1, "group", "42", Some("标题")),
        Some("100".to_string()),
    )
    .unwrap();
    assert_eq!(target.conversation.kind, ConversationKind::Group);
    assert_eq!(target.bot_id, "100");
    assert_eq!(
        message_target(&conversation(1, "group", "42", None), None)
            .unwrap_err()
            .status,
        503
    );
    assert_eq!(
        message_target(&conversation(1, "other", "42", None), None)
            .unwrap_err()
            .message,
        "会话类型无效"
    );
}

#[test]
fn the_state_of_the_program_is_shown() {
    let status = ProgramStatus {
        version: "0.1.0".to_string(),
        started_at: 100,
        bot_id: Some("1".to_string()),
        bot_name: None,
        onebot_online: Some(true),
        last_event_at: None,
    };
    let stats = AdminDatabaseStats {
        conversations: 3,
        group_conversations: 2,
        direct_conversations: 1,
        messages_today: 9,
        user_memories: 4,
        character_memories: 5,
        scheduled_tasks: 6,
    };
    let shown = status_response(&status, &stats, 160);
    assert_eq!(shown.unsigned_at("uptime_seconds"), Some(60));
    assert_eq!(shown.get("bot_name"), Some(&Json::Null));
    assert_eq!(shown.get("onebot_online"), Some(&Json::Bool(true)));
    assert_eq!(shown.unsigned_at("messages_today"), Some(9));
    assert_eq!(uptime_seconds(i64::MAX, -1), i64::MAX);
    let now = 1_750_000_000;
    let start = day_start(now, &local_time(now).unwrap());
    let midnight = local_time(start).unwrap();
    assert_eq!((midnight.hour, midnight.minute, midnight.second), (0, 0, 0));
    assert_eq!(save_outcome(None), (202, true));
    assert_eq!(save_outcome(Some(false)), (200, false));
    assert!(image_id_fits("img_A1"));
    assert!(!image_id_fits("../a"));
}

#[test]
fn tasks_are_shown_on_a_page() {
    let shown = task_item(&ScheduledTask {
        id: "task_1".to_string(),
        conversation_id: 1,
        source: "qq".to_string(),
        source_conversation_id: "42".to_string(),
        conversation_kind: "group".to_string(),
        conversation_title: None,
        bot_id: "100".to_string(),
        title: "标题".to_string(),
        schedule: "cron:0 9 * * *".to_string(),
        instruction: "说明".to_string(),
        next_run_at: 5,
        last_triggered_at: None,
        created_at: 0,
        updated_at: 0,
    });
    assert_eq!(shown.text_at("id").as_deref(), Some("task_1"));
    assert_eq!(shown.unsigned_at("next_run_at"), Some(5));
}

fn catalog() -> SkillCatalog {
    let mut catalog = SkillCatalog::new();
    for name in ["b", "a"] {
        catalog
            .insert(SkillEntry {
                metadata: SkillMetadata {
                    name: name.to_string(),
                    description: "d".to_string(),
                },
                virtual_path: format!("{}/SKILL.md", name),
                path: format!("skills/{}/SKILL.md", name),
            })
            .unwrap();
    }
    catalog
}

#[test]
fn skills_are_listed_on_a_page() {
    let listed = list_skills(&catalog(), &texts(&["b"]));
    assert_eq!(listed.len(), 2);
    assert_eq!(listed[0].name, "a");
    assert!(!listed[0].enabled);
    assert!(listed[1].enabled);
    assert_eq!(
        normalize_enabled_names(&catalog(), &texts(&["b", "x", "b"])),
        texts(&["b"])
    );
    assert!(name_is_free(&catalog(), "c", "skills/c/SKILL.md"));
    assert!(!name_is_free(&catalog(), "a", "skills/c/SKILL.md"));
    assert!(name_is_free(&catalog(), "a", "skills/a/SKILL.md"));
    let files = list_skill_files(vec![
        AdminSkillFile {
            path: "z.md".to_string(),
            size: 1,
        },
        AdminSkillFile {
            path: "SKILL.md".to_string(),
            size: 2,
        },
    ]);
    assert_eq!(files[0].path, "SKILL.md");
    assert_eq!(scan_step("a", true, false, false, 0, 0), ScanStep::Skip);
    assert_eq!(scan_step("a", false, true, false, 0, 0), ScanStep::Descend);
    assert_eq!(scan_step("a", false, true, false, 0, 23), ScanStep::Descend);
    assert_eq!(scan_step("a", false, true, false, 0, 24), ScanStep::TooDeep);
    assert_eq!(scan_step(".git", false, true, false, 0, 24), ScanStep::Skip);
    assert_eq!(scan_step("a.md", false, false, true, 0, 0), ScanStep::List);
}
