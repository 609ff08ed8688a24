use rolava::ai_provider::anthropic::AnthropicProvider;
use rolava::commands::registry::{CommandRegistry, RegistryError};
use rolava::commands::reset::ResetCommand;
use rolava::commands::{
    failed_command, reply_to_send, CommandOutput, CommandRoute, CommandRuntimeAction,
    CommandSystem,
};
use rolava::config::{
    enabled_action_names, join_action_prompts, parse_face_map, parse_provider_kind,
    render_prompt_template, AppConfig, AppSection, ConfigError, LogLevel, LoggingSection,
    ModelConfig, ModelFeatureState, ModelPurpose, PromptConfig, ProviderConfig, ProviderKind,
    ServerSection,
};
use rolava::json::Json;
use rolava::repository::db_manager::ResetConversationResult;
use rolava::supervisor::{
    after_worker, default_log_filter, exit_code, worker_exit_code, SupervisorStep, WorkerExit,
};
use rolava::transport::{
    Conversation, ConversationKind, IncomingMessage, MessageContent, Sender,
};

fn texts(list: &[&str]) -> Vec<String> {
    list.iter().map(|text| text.to_string()).collect()
}

fn app(chat_model: &str) -> AppSection {
    AppSection {
        prompt_dir: "prompts".to_string(),
        max_history_messages: 10,
        vision_image_message_window: 3,
        chat_model_name: chat_model.to_string(),
        filter_model_name: String::new(),
        enable_ai_filter: false,
        web_search_model_name: String::new(),
        visual_model_name: String::new(),
        ai_request_retry_count: 2,
        ai_request_timeout_seconds: 30,
        received_image_dir: "images".to_string(),
        enabled_actions: vec![],
        direct_whitelist: vec![],
        group_whitelist: vec![],
        command_whitelist: vec![],
        split_reply_on_newlines: false,
    }
}

fn server() -> ServerSection {
    ServerSection {
        server_host: "h".to_string(),
        server_port: 1,
        server_token: String::new(),
        onebot_api: "o".to_string(),
        onebot_token: String::new(),
    }
}

fn provider(name: &str, kind: &str) -> ProviderConfig {
    ProviderConfig {
        name: name.to_string(),
        kind: kind.to_string(),
        key: "k".to_string(),
        base_url: String::new(),
    }
}

fn model(name: &str, provider: &str) -> ModelConfig {
    ModelConfig {
        name: name.to_string(),
        provider: provider.to_string(),
        model: "gpt".to_string(),
        max_tokens: 100,
        reasoning_effort: "low".to_string(),
        vision: ModelFeatureState::Enable,
    }
}

fn prompts() -> PromptConfig {
    PromptConfig::new(
        "规则 {{enabled_actions}}",
        &texts(&[" 动作一 ", "动作二"]),
        "角色".to_string(),
        "指令".to_string(),
        "过滤 {{character}}",
    )
}

fn configured(
    chat: &str,
    providers: Vec<ProviderConfig>,
    models: Vec<ModelConfig>,
) -> Result<AppConfig, ConfigError> {
    AppConfig::new(
        app(chat),
        server(),
        &providers,
        models,
        prompts(),
        LoggingSection::default(),
    )
}

#[test]
fn a_sound_configuration_is_taken() {
    let config = configured(
        "m",
        vec![provider("p", "openai_compatible")],
        vec![model("m", "p")],
    )
    .unwrap();
    assert!(config.chat_model_supports_vision());
    assert_eq!(config.app.ai_request_max_attempts(), 3);
    assert_eq!(config.models.len(), 1);
    assert_eq!(config.logging.level, LogLevel::Info);
}

#[test]
fn configurations_that_are_refused() {
    let refused = |chat: &str, providers: Vec<ProviderConfig>, models: Vec<ModelConfig>| {
        configured(chat, providers, models).unwrap_err()
    };
    let kind = "openai_compatible";
    assert_eq!(
        refused("", vec![provider("p", kind), provider("p", kind)], vec![]),
        ConfigError::DuplicateProvider {
            name: "p".to_string()
        }
    );
    assert_eq!(
        refused("", vec![], vec![model("m", "p")]),
        ConfigError::UnknownProvider {
            model: "m".to_string(),
            provider: "p".to_string()
        }
    );
    assert_eq!(
        refused("", vec![provider("p", "other")], vec![model("m", "p")]),
        ConfigError::UnsupportedType {
            kind: "other".to_string()
        }
    );
    assert_eq!(
        refused(
            "",
            vec![provider("p", kind)],
            vec![model("m", "p"), model("m", "p")]
        ),
        ConfigError::DuplicateModel {
            name: "m".to_string()
        }
    );
    let missing = refused("x", vec![provider("p", kind)], vec![model("m", "p")]);
    assert_eq!(
        missing,
        ConfigError::MissingModel {
            purpose: ModelPurpose::Chat,
            name: "x".to_string()
        }
    );
    assert_eq!(missing.message(), "聊天模型配置不存在：x");
    assert_eq!(
        enabled_action_names(&texts(&["wait", "../x"])).unwrap_err(),
        ConfigError::BadActionName {
            name: "../x".to_string()
        }
    );
    assert_eq!(
        enabled_action_names(&texts(&[" wait ", " "])).unwrap(),
        texts(&["wait"])
    );
}

#[test]
fn prompts_are_put_together() {
    let prompts = prompts();
    assert_eq!(prompts.system_prompt, "规则 动作一\n\n动作二");
    assert_eq!(join_action_prompts(&vec![]), "");
    assert_eq!(
        render_prompt_template(
            "{{a}} 和 {{b}}",
            &vec![
                ("a".to_string(), "甲".to_string()),
                ("b".to_string(), "乙".to_string())
            ]
        ),
        "甲 和 乙"
    );
    assert_eq!(
        parse_face_map("{\"1\":\"微笑\"}").unwrap(),
        vec![("1".to_string(), "微笑".to_string())]
    );
    assert!(parse_face_map("{\"1\":2}").is_none());
    assert!(parse_face_map("no json").is_none());
    assert_eq!(
        parse_provider_kind("google_aistudio"),
        Some(ProviderKind::GoogleAIStudio)
    );
    assert_eq!(parse_provider_kind("other"), None);
    assert_eq!(LogLevel::Debug.as_str(), "debug");
}

#[test]
fn commands_have_names_and_words() {
    let mut registry = CommandRegistry::new();
    let reset = ResetCommand;
    assert_eq!(registry.register(reset.name(), reset.description()), Ok(()));
    assert_eq!(
        registry.register("reset", "again").unwrap_err(),
        RegistryError::Duplicate {
            name: "reset".to_string()
        }
    );
    assert!(matches!(
        registry.register("two words", "x").unwrap_err(),
        RegistryError::InvalidName { .. }
    ));
    assert!(matches!(
        registry.register("quiet", " ").unwrap_err(),
        RegistryError::MissingDescription { .. }
    ));
    assert_eq!(registry.get("reset"), Some(0));
    assert_eq!(registry.get("other"), None);
    assert_eq!(reset.refusal("now"), Some("/reset 不接受参数"));
    assert_eq!(reset.refusal(""), None);
    let output = reset.output(&ResetConversationResult {
        deleted_messages: 3,
        deleted_daily_summaries: 1,
    });
    assert_eq!(output.runtime_action, CommandRuntimeAction::ResetConversation);
    assert_eq!(
        output.reply.as_deref(),
        Some("当前会话已重置，已删除 3 条聊天记录和 1 条历史摘要。")
    );
}

fn message(sender: &str, text: &str) -> IncomingMessage {
    IncomingMessage {
        source: "qq".to_string(),
        bot_id: "100".to_string(),
        message_id: None,
        conversation: Conversation {
            id: "7".to_string(),
            kind: ConversationKind::Direct,
            title: None,
        },
        sender: Sender {
            id: sender.to_string(),
            display_name: "名".to_string(),
            nickname: None,
            role: None,
        },
        content: MessageContent {
            text: text.to_string(),
            parts: vec![],
        },
        metadata: Json::Null,
        timestamp: 1,
    }
}

#[test]
fn only_listed_accounts_give_commands() {
    let mut registry = CommandRegistry::new();
    registry.register("reset", "重置").unwrap();
    let system = CommandSystem::new(registry, &texts(&["7"]));
    assert!(system.is_command_message(&message("7", "/reset")));
    assert!(!system.is_command_message(&message("8", "/reset")));
    assert!(!system.is_command_message(&message("7", "你好")));
    assert_eq!(
        system.route(&message("7", "/reset now")),
        CommandRoute::Run {
            command: 0,
            arguments: "now".to_string()
        }
    );
    assert!(matches!(
        system.route(&message("7", "/fly")),
        CommandRoute::Unknown(_)
    ));
    assert_eq!(system.route(&message("8", "/reset")), CommandRoute::Ordinary);
    assert_eq!(
        reply_to_send(&CommandOutput::reply("好".to_string())).as_deref(),
        Some("好")
    );
    assert!(failed_command("断网").reply.unwrap().contains("断网"));
}

#[test]
fn the_program_starts_itself_again() {
    assert_eq!(worker_exit_code(Some(WorkerExit::Restart)), 75);
    assert_eq!(worker_exit_code(Some(WorkerExit::Stop)), 0);
    assert_eq!(worker_exit_code(None), 1);
    assert_eq!(after_worker(Some(75)), SupervisorStep::StartAgain);
    assert_eq!(after_worker(Some(3)), SupervisorStep::Exit { code: 3 });
    assert_eq!(after_worker(None), SupervisorStep::Exit { code: 1 });
    assert_eq!(exit_code(None), 1);
    assert_eq!(default_log_filter("info"), "warn,rolava=info");
}

#[test]
fn a_provider_that_cannot_be_asked_yet() {
    let provider = AnthropicProvider::new("k".to_string(), "u".to_string(), "m".to_string());
    assert_eq!(provider.max_tokens, 10240);
    assert_eq!(
        provider.chat_completions(),
        "Anthropic provider is not implemented yet"
    );
}
