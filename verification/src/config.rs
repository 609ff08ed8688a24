//! The configuration: what may stand in it, and what follows from it.

use vstd::prelude::*;

use crate::json::{json_parsed, parse_json, Json, JsonView};
use crate::text::{
    blank, contains_char, contains_text, has_text, is_blank, join, join_of, lemma_no_mark,
    lemma_one_mark, mark, no_braces, no_opening, replace, replace_of, same_text, texts, trim,
    trim_of,
};

verus! {

pub const DEFAULT_AI_REQUEST_RETRY_COUNT: u32 = 1;

pub const DEFAULT_AI_REQUEST_TIMEOUT_SECONDS: u64 = 0;

pub const DEFAULT_VISION_IMAGE_MESSAGE_WINDOW: usize = 10;

pub const DEFAULT_ENABLE_AI_FILTER: bool = true;

/// How much is logged.
#[derive(Debug, Clone, Copy, PartialEq, Eq, Structural)]
pub enum LogLevel {
    Error,
    Warn,
    Info,
    Debug,
    Trace,
}

impl Default for LogLevel {
    fn default() -> (r: LogLevel)
        ensures
            r == LogLevel::Info,
    {
        LogLevel::Info
    }
}

impl LogLevel {
    /// The word for the level.
    pub fn as_str(self) -> (r: &'static str)
        ensures
            r@ == (match self {
                LogLevel::Error => "error"@,
                LogLevel::Warn => "warn"@,
                LogLevel::Info => "info"@,
                LogLevel::Debug => "debug"@,
                LogLevel::Trace => "trace"@,
            }),
    {
        match self {
            LogLevel::Error => "error",
            LogLevel::Warn => "warn",
            LogLevel::Info => "info",
            LogLevel::Debug => "debug",
            LogLevel::Trace => "trace",
        }
    }
}

/// What is logged.
#[derive(Debug, Clone, Copy, PartialEq, Eq, Structural)]
pub struct LoggingSection {
    pub level: LogLevel,
}

impl Default for LoggingSection {
    fn default() -> (r: LoggingSection)
        ensures
            r.level == LogLevel::Info,
    {
        LoggingSection { level: LogLevel::Info }
    }
}

/// How the program behaves.
#[derive(Debug, PartialEq, Eq)]
pub struct AppSection {
    pub prompt_dir: String,
    pub max_history_messages: u32,
    /// How many of the latest messages keep their images; 0 means none.
    pub vision_image_message_window: usize,
    pub chat_model_name: String,
    pub filter_model_name: String,
    pub enable_ai_filter: bool,
    pub web_search_model_name: String,
    pub visual_model_name: String,
    /// How often a request that failed is made again.
    pub ai_request_retry_count: u32,
    /// How long a request may take, in seconds; 0 means without limit.
    pub ai_request_timeout_seconds: u64,
    pub received_image_dir: String,
    pub enabled_actions: Vec<String>,
    /// The accounts that may write; an empty list lets all write.
    pub direct_whitelist: Vec<String>,
    /// The groups that may write; an empty list lets all write.
    pub group_whitelist: Vec<String>,
    /// The accounts that may give commands; an empty list lets none.
    pub command_whitelist: Vec<String>,
    pub split_reply_on_newlines: bool,
}

/// How often a request is made at most: once, and once for each retry.
pub open spec fn max_attempts_of(retry_count: u32) -> u32 {
    if retry_count == u32::MAX {
        u32::MAX
    } else {
        (retry_count + 1) as u32
    }
}

impl AppSection {
    /// How often a request is made at most.
    pub fn ai_request_max_attempts(&self) -> (r: u32)
        ensures
            r == max_attempts_of(self.ai_request_retry_count),
            r >= 1,
    {
        if self.ai_request_retry_count == u32::MAX {
            u32::MAX
        } else {
            self.ai_request_retry_count + 1
        }
    }
}

/// Where the program listens, and where the platform is.
#[derive(Debug, PartialEq, Eq)]
pub struct ServerSection {
    pub server_host: String,
    pub server_port: u16,
    pub server_token: String,
    pub onebot_api: String,
    pub onebot_token: String,
}

/// A provider of models.
#[derive(Debug, PartialEq, Eq)]
pub struct ProviderConfig {
    pub name: String,
    pub kind: String,
    pub key: String,
    pub base_url: String,
}

/// Whether a model can do something.
#[derive(Debug, Clone, Copy, PartialEq, Eq, Structural)]
pub enum ModelFeatureState {
    Enable,
    Disable,
}

impl Default for ModelFeatureState {
    fn default() -> (r: ModelFeatureState)
        ensures
            r == ModelFeatureState::Disable,
    {
        ModelFeatureState::Disable
    }
}

impl ModelFeatureState {
    /// Whether the model can.
    pub fn is_enabled(self) -> (r: bool)
        ensures
            r == (self == ModelFeatureState::Enable),
    {
        match self {
            ModelFeatureState::Enable => true,
            ModelFeatureState::Disable => false,
        }
    }

    /// The word for it in a configuration.
    pub fn as_str(self) -> (r: &'static str)
        ensures
            r@ == feature_word(self),
    {
        match self {
            ModelFeatureState::Enable => "enable",
            ModelFeatureState::Disable => "disable",
        }
    }
}

/// The word for whether a model can, in a configuration.
pub open spec fn feature_word(state: ModelFeatureState) -> Seq<char> {
    match state {
        ModelFeatureState::Enable => "enable"@,
        ModelFeatureState::Disable => "disable"@,
    }
}

/// What a model can do.
#[derive(Debug, Clone, Copy, PartialEq, Eq, Structural)]
pub struct ModelCapabilities {
    pub vision: ModelFeatureState,
}

impl Default for ModelCapabilities {
    fn default() -> (r: ModelCapabilities)
        ensures
            r.vision == ModelFeatureState::Disable,
    {
        ModelCapabilities { vision: ModelFeatureState::Disable }
    }
}

/// A model.
#[derive(Debug, PartialEq, Eq)]
pub struct ModelConfig {
    pub name: String,
    pub provider: String,
    pub model: String,
    pub max_tokens: i32,
    pub reasoning_effort: String,
    pub vision: ModelFeatureState,
}

/// The kinds of providers.
#[derive(Debug, Clone, Copy, PartialEq, Eq, Structural)]
pub enum ProviderKind {
    OpenAICompatible,
    OpenRouter,
    GoogleAIStudio,
}

/// The kind of provider that a word names.
pub open spec fn provider_kind_of(word: Seq<char>) -> Option<ProviderKind> {
    if word == "openai_compatible"@ {
        Some(ProviderKind::OpenAICompatible)
    } else if word == "openrouter"@ {
        Some(ProviderKind::OpenRouter)
    } else if word == "google_aistudio"@ {
        Some(ProviderKind::GoogleAIStudio)
    } else {
        None
    }
}

/// The kind of provider that a word names.
pub fn parse_provider_kind(word: &str) -> (r: Option<ProviderKind>)
    ensures
        r == provider_kind_of(word@),
{
    if same_text(word, "openai_compatible") {
        Some(ProviderKind::OpenAICompatible)
    } else if same_text(word, "openrouter") {
        Some(ProviderKind::OpenRouter)
    } else if same_text(word, "google_aistudio") {
        Some(ProviderKind::GoogleAIStudio)
    } else {
        None
    }
}

/// What a model is for.
#[derive(Debug, Clone, Copy, PartialEq, Eq, Structural)]
pub enum ModelPurpose {
    Chat,
    Filter,
    WebSearch,
    Vision,
}

/// The word for what a model is for.
pub open spec fn purpose_word(purpose: ModelPurpose) -> Seq<char> {
    match purpose {
        ModelPurpose::Chat => "聊天"@,
        ModelPurpose::Filter => "消息过滤"@,
        ModelPurpose::WebSearch => "联网搜索"@,
        ModelPurpose::Vision => "图像识别"@,
    }
}

impl ModelPurpose {
    /// The word for what a model is for.
    pub fn as_str(self) -> (r: &'static str)
        ensures
            r@ == purpose_word(self),
    {
        match self {
            ModelPurpose::Chat => "聊天",
            ModelPurpose::Filter => "消息过滤",
            ModelPurpose::WebSearch => "联网搜索",
            ModelPurpose::Vision => "图像识别",
        }
    }
}

/// What is wrong with a configuration.
#[derive(Debug, PartialEq, Eq)]
pub enum ConfigError {
    DuplicateProvider { name: String },
    UnknownProvider { model: String, provider: String },
    UnsupportedType { kind: String },
    DuplicateModel { name: String },
    MissingModel { purpose: ModelPurpose, name: String },
    BadActionName { name: String },
}

/// What an error holds.
pub enum ConfigErrorView {
    DuplicateProvider { name: Seq<char> },
    UnknownProvider { model: Seq<char>, provider: Seq<char> },
    UnsupportedType { kind: Seq<char> },
    DuplicateModel { name: Seq<char> },
    MissingModel { purpose: ModelPurpose, name: Seq<char> },
    BadActionName { name: Seq<char> },
}

impl View for ConfigError {
    type V = ConfigErrorView;

    open spec fn view(&self) -> ConfigErrorView {
        match self {
            ConfigError::DuplicateProvider { name } => ConfigErrorView::DuplicateProvider {
                name: name@,
            },
            ConfigError::UnknownProvider { model, provider } => ConfigErrorView::UnknownProvider {
                model: model@,
                provider: provider@,
            },
            ConfigError::UnsupportedType { kind } => ConfigErrorView::UnsupportedType {
                kind: kind@,
            },
            ConfigError::DuplicateModel { name } => ConfigErrorView::DuplicateModel { name: name@ },
            ConfigError::MissingModel { purpose, name } => ConfigErrorView::MissingModel {
                purpose: *purpose,
                name: name@,
            },
            ConfigError::BadActionName { name } => ConfigErrorView::BadActionName { name: name@ },
        }
    }
}

/// What an error says.
pub open spec fn config_error_text(error: ConfigErrorView) -> Seq<char> {
    match error {
        ConfigErrorView::DuplicateProvider { name } => "服务商配置名称重复："@ + name,
        ConfigErrorView::UnknownProvider { model, provider } => "模型配置 "@ + model
            + " 引用了不存在的服务商："@ + provider,
        ConfigErrorView::UnsupportedType { kind } => "不支持的服务商类型："@ + kind,
        ConfigErrorView::DuplicateModel { name } => "模型配置名称重复："@ + name,
        ConfigErrorView::MissingModel { purpose, name } => purpose_word(purpose) + "模型配置不存在："@
            + name,
        ConfigErrorView::BadActionName { name } => "可选动作名称不合法："@ + name,
    }
}

impl ConfigError {
    /// What the error says.
    pub fn message(&self) -> (r: String)
        ensures
            r@ == config_error_text(self@),
    {
        match self {
            ConfigError::DuplicateProvider { name } => {
                let mut r = "服务商配置名称重复：".to_owned();
                r.push_str(name);
                r
            },
            ConfigError::UnknownProvider { model, provider } => {
                let mut r = "模型配置 ".to_owned();
                r.push_str(model);
                r.push_str(" 引用了不存在的服务商：");
                r.push_str(provider);
                r
            },
            ConfigError::UnsupportedType { kind } => {
                let mut r = "不支持的服务商类型：".to_owned();
                r.push_str(kind);
                r
            },
            ConfigError::DuplicateModel { name } => {
                let mut r = "模型配置名称重复：".to_owned();
                r.push_str(name);
                r
            },
            ConfigError::MissingModel { purpose, name } => {
                let mut r = purpose.as_str().to_owned();
                r.push_str("模型配置不存在：");
                r.push_str(name);
                r
            },
            ConfigError::BadActionName { name } => {
                let mut r = "可选动作名称不合法：".to_owned();
                r.push_str(name);
                r
            },
        }
    }
}

/// Where the first provider of a name stands among the first `n`.
pub open spec fn provider_position(providers: Seq<ProviderConfig>, n: nat, name: Seq<char>) -> Option<
    int,
>
    decreases n,
{
    if n == 0 {
        None
    } else {
        match provider_position(providers, (n - 1) as nat, name) {
            Some(i) => Some(i),
            None => if providers[n - 1].name@ == name {
                Some(n - 1)
            } else {
                None
            },
        }
    }
}

/// Whether one of the first `n` models has a name.
pub open spec fn model_named(models: Seq<ModelConfig>, n: nat, name: Seq<char>) -> bool {
    exists|i: int| 0 <= i < n && (#[trigger] models[i]).name@ == name
}

/// What is wrong with the first `n` providers.
pub open spec fn provider_fault(providers: Seq<ProviderConfig>, n: nat) -> Option<ConfigErrorView>
    decreases n,
{
    if n == 0 {
        None
    } else {
        match provider_fault(providers, (n - 1) as nat) {
            Some(e) => Some(e),
            None => if provider_position(providers, (n - 1) as nat, providers[n - 1].name@) is Some {
                Some(ConfigErrorView::DuplicateProvider { name: providers[n - 1].name@ })
            } else {
                None
            },
        }
    }
}

/// What is wrong with a model by itself.
pub open spec fn one_model_fault(
    providers: Seq<ProviderConfig>,
    models: Seq<ModelConfig>,
    i: int,
) -> Option<ConfigErrorView> {
    let model = models[i];
    match provider_position(providers, providers.len(), model.provider@) {
        None => Some(
            ConfigErrorView::UnknownProvider { model: model.name@, provider: model.provider@ },
        ),
        Some(p) => if provider_kind_of(providers[p].kind@) is None {
            Some(ConfigErrorView::UnsupportedType { kind: providers[p].kind@ })
        } else if model_named(models, i as nat, model.name@) {
            Some(ConfigErrorView::DuplicateModel { name: model.name@ })
        } else {
            None
        },
    }
}

/// What is wrong with the first `n` models.
pub open spec fn model_fault(
    providers: Seq<ProviderConfig>,
    models: Seq<ModelConfig>,
    n: nat,
) -> Option<ConfigErrorView>
    decreases n,
{
    if n == 0 {
        None
    } else {
        match model_fault(providers, models, (n - 1) as nat) {
            Some(e) => Some(e),
            None => one_model_fault(providers, models, n - 1),
        }
    }
}

/// What is wrong with the model that is to serve a purpose; a blank name means that none serves.
pub open spec fn purpose_fault(
    models: Seq<ModelConfig>,
    purpose: ModelPurpose,
    name: Seq<char>,
) -> Option<ConfigErrorView> {
    if !is_blank(name) && !model_named(models, models.len(), name) {
        Some(ConfigErrorView::MissingModel { purpose, name })
    } else {
        None
    }
}

/// The first of two faults.
pub open spec fn first_fault(a: Option<ConfigErrorView>, b: Option<ConfigErrorView>) -> Option<
    ConfigErrorView,
> {
    if a is Some {
        a
    } else {
        b
    }
}

/// What is wrong with a configuration.
pub open spec fn config_fault(
    app: AppSection,
    providers: Seq<ProviderConfig>,
    models: Seq<ModelConfig>,
) -> Option<ConfigErrorView> {
    first_fault(
        provider_fault(providers, providers.len()),
        first_fault(
            model_fault(providers, models, models.len()),
            first_fault(
                purpose_fault(models, ModelPurpose::Chat, app.chat_model_name@),
                first_fault(
                    purpose_fault(models, ModelPurpose::Filter, app.filter_model_name@),
                    first_fault(
                        purpose_fault(models, ModelPurpose::WebSearch, app.web_search_model_name@),
                        purpose_fault(models, ModelPurpose::Vision, app.visual_model_name@),
                    ),
                ),
            ),
        ),
    )
}

proof fn lemma_provider_fault(providers: Seq<ProviderConfig>, n: nat, m: nat)
    requires
        n <= m,
        provider_fault(providers, n) is Some,
    ensures
        provider_fault(providers, m) == provider_fault(providers, n),
    decreases m,
{
    if n < m {
        lemma_provider_fault(providers, n, (m - 1) as nat);
    }
}

proof fn lemma_model_fault(
    providers: Seq<ProviderConfig>,
    models: Seq<ModelConfig>,
    n: nat,
    m: nat,
)
    requires
        n <= m,
        model_fault(providers, models, n) is Some,
    ensures
        model_fault(providers, models, m) == model_fault(providers, models, n),
    decreases m,
{
    if n < m {
        lemma_model_fault(providers, models, n, (m - 1) as nat);
    }
}

fn find_provider(providers: &Vec<ProviderConfig>, n: usize, name: &str) -> (r: Option<usize>)
    requires
        n <= providers@.len(),
    ensures
        match r {
            Some(i) => i < n && provider_position(providers@, n as nat, name@) == Some(i as int),
            None => provider_position(providers@, n as nat, name@) is None,
        },
{
    let mut found: Option<usize> = None;
    let mut i: usize = 0;
    while i < n
        invariant
            i <= n <= providers@.len(),
            match found {
                Some(f) => f < i && provider_position(providers@, i as nat, name@) == Some(
                    f as int,
                ),
                None => provider_position(providers@, i as nat, name@) is None,
            },
        decreases n - i,
    {
        if found.is_none() && same_text(&providers[i].name, name) {
            found = Some(i);
        }
        i += 1;
    }
    found
}

fn has_model(models: &Vec<ModelConfig>, n: usize, name: &str) -> (r: bool)
    requires
        n <= models@.len(),
    ensures
        r == model_named(models@, n as nat, name@),
{
    let mut i: usize = 0;
    while i < n
        invariant
            i <= n <= models@.len(),
            !model_named(models@, i as nat, name@),
        decreases n - i,
    {
        if same_text(&models[i].name, name) {
            return true;
        }
        i += 1;
    }
    false
}

/// A model with the provider that serves it.
#[derive(Debug, PartialEq, Eq)]
pub struct ModelSetup {
    pub kind: ProviderKind,
    pub key: String,
    pub base_url: String,
    pub config: ModelConfig,
}

/// The setup of a model of a sound configuration.
pub open spec fn is_setup_of(
    setup: ModelSetup,
    providers: Seq<ProviderConfig>,
    model: ModelConfig,
) -> bool {
    match provider_position(providers, providers.len(), model.provider@) {
        Some(p) => setup.config == model && provider_kind_of(providers[p].kind@) == Some(
            setup.kind,
        ) && setup.key@ == providers[p].key@ && setup.base_url@ == providers[p].base_url@,
        None => false,
    }
}

/// The prompts.
#[derive(Debug, PartialEq, Eq)]
pub struct PromptConfig {
    pub system_prompt: String,
    pub character_prompt: String,
    pub instruction_prompt: String,
    pub filter_prompt: String,
}

/// A sound configuration.
#[derive(Debug, PartialEq, Eq)]
pub struct AppConfig {
    pub app: AppSection,
    pub server: ServerSection,
    pub models: Vec<ModelSetup>,
    pub prompt_config: PromptConfig,
    pub logging: LoggingSection,
}

fn check_purpose(models: &Vec<ModelConfig>, purpose: ModelPurpose, name: &str) -> (r: Result<
    (),
    ConfigError,
>)
    ensures
        match r {
            Ok(()) => purpose_fault(models@, purpose, name@) is None,
            Err(e) => purpose_fault(models@, purpose, name@) == Some(e@),
        },
{
    if !blank(name) && !has_model(models, models.len(), name) {
        Err(ConfigError::MissingModel { purpose, name: name.to_owned() })
    } else {
        Ok(())
    }
}

fn check_providers(providers: &Vec<ProviderConfig>) -> (r: Result<(), ConfigError>)
    ensures
        match r {
            Ok(()) => provider_fault(providers@, providers@.len()) is None,
            Err(e) => provider_fault(providers@, providers@.len()) == Some(e@),
        },
{
    let mut i: usize = 0;
    while i < providers.len()
        invariant
            i <= providers@.len(),
            provider_fault(providers@, i as nat) is None,
        decreases providers@.len() - i,
    {
        if find_provider(providers, i, &providers[i].name).is_some() {
            proof {
                lemma_provider_fault(providers@, (i + 1) as nat, providers@.len());
            }
            return Err(ConfigError::DuplicateProvider { name: providers[i].name.clone() });
        }
        i += 1;
    }
    Ok(())
}

fn check_models(providers: &Vec<ProviderConfig>, models: &Vec<ModelConfig>) -> (r: Result<
    (),
    ConfigError,
>)
    ensures
        match r {
            Ok(()) => model_fault(providers@, models@, models@.len()) is None && forall|j: int|
                0 <= j < models@.len() ==> #[trigger] one_model_fault(
                    providers@,
                    models@,
                    j,
                ) is None,
            Err(e) => model_fault(providers@, models@, models@.len()) == Some(e@),
        },
{
    let mut i: usize = 0;
    while i < models.len()
        invariant
            i <= models@.len(),
            model_fault(providers@, models@, i as nat) is None,
            forall|j: int|
                0 <= j < i ==> #[trigger] one_model_fault(providers@, models@, j) is None,
        decreases models@.len() - i,
    {
        let model = &models[i];
        proof {
            if one_model_fault(providers@, models@, i as int) is Some {
                lemma_model_fault(providers@, models@, (i + 1) as nat, models@.len());
            }
        }
        match find_provider(providers, providers.len(), &model.provider) {
            None => {
                return Err(
                    ConfigError::UnknownProvider {
                        model: model.name.clone(),
                        provider: model.provider.clone(),
                    },
                );
            },
            Some(p) => {
                if parse_provider_kind(&providers[p].kind).is_none() {
                    return Err(
                        ConfigError::UnsupportedType { kind: providers[p].kind.clone() },
                    );
                }
            },
        }
        if has_model(models, i, &model.name) {
            return Err(ConfigError::DuplicateModel { name: model.name.clone() });
        }
        i += 1;
    }
    Ok(())
}

fn set_up_models(providers: &Vec<ProviderConfig>, models: Vec<ModelConfig>) -> (r: Vec<ModelSetup>)
    requires
        forall|j: int|
            0 <= j < models@.len() ==> #[trigger] one_model_fault(
                providers@,
                models@,
                j,
            ) is None,
    ensures
        r@.len() == models@.len(),
        forall|i: int|
            0 <= i < r@.len() ==> is_setup_of(#[trigger] r@[i], providers@, models@[i]),
{
    let ghost all = models@;
    let mut rest = models;
    let mut setups: Vec<ModelSetup> = Vec::new();
    while rest.len() > 0
        invariant
            setups@.len() <= all.len(),
            rest@ =~= all.skip(setups@.len() as int),
            forall|j: int|
                0 <= j < all.len() ==> #[trigger] one_model_fault(providers@, all, j) is None,
            forall|i: int|
                0 <= i < setups@.len() ==> is_setup_of(#[trigger] setups@[i], providers@, all[i]),
        decreases rest@.len(),
    {
        let ghost at = setups@.len() as int;
        let config = rest.remove(0);
        assert(config == all[at]);
        assert(one_model_fault(providers@, all, at) is None);
        if let Some(p) = find_provider(providers, providers.len(), &config.provider) {
            if let Some(kind) = parse_provider_kind(&providers[p].kind) {
                setups.push(
                    ModelSetup {
                        kind,
                        key: providers[p].key.clone(),
                        base_url: providers[p].base_url.clone(),
                        config,
                    },
                );
            }
        }
    }
    setups
}

impl AppConfig {
    /// Checks a configuration: no provider and no model occurs twice, each model has a provider of
    /// a known kind, and the models that are to serve exist.
    pub fn new(
        app: AppSection,
        server: ServerSection,
        providers: &Vec<ProviderConfig>,
        models: Vec<ModelConfig>,
        prompt_config: PromptConfig,
        logging: LoggingSection,
    ) -> (r: Result<AppConfig, ConfigError>)
        ensures
            match r {
                Ok(config) => config_fault(app, providers@, models@) is None && config.app == app
                    && config.server == server && config.prompt_config == prompt_config
                    && config.logging == logging && config.models@.len() == models@.len()
                    && forall|i: int|
                    0 <= i < models@.len() ==> is_setup_of(
                        #[trigger] config.models@[i],
                        providers@,
                        models@[i],
                    ),
                Err(e) => config_fault(app, providers@, models@) == Some(e@),
            },
    {
        match check_providers(providers) {
            Ok(()) => {},
            Err(e) => {
                return Err(e);
            },
        }
        match check_models(providers, &models) {
            Ok(()) => {},
            Err(e) => {
                return Err(e);
            },
        }
        match check_purpose(&models, ModelPurpose::Chat, &app.chat_model_name) {
            Ok(()) => {},
            Err(e) => {
                return Err(e);
            },
        }
        match check_purpose(&models, ModelPurpose::Filter, &app.filter_model_name) {
            Ok(()) => {},
            Err(e) => {
                return Err(e);
            },
        }
        match check_purpose(&models, ModelPurpose::WebSearch, &app.web_search_model_name) {
            Ok(()) => {},
            Err(e) => {
                return Err(e);
            },
        }
        match check_purpose(&models, ModelPurpose::Vision, &app.visual_model_name) {
            Ok(()) => {},
            Err(e) => {
                return Err(e);
            },
        }
        let setups = set_up_models(providers, models);
        Ok(AppConfig { app, server, models: setups, prompt_config, logging })
    }

    /// Whether the model that chats takes images.
    pub fn chat_model_supports_vision(&self) -> (r: bool)
        ensures
            r == (exists|i: int|
                0 <= i < self.models@.len() && (#[trigger] self.models@[i]).config.name@
                    == self.app.chat_model_name@ && self.models@[i].config.vision
                    == ModelFeatureState::Enable),
    {
        let mut i: usize = 0;
        while i < self.models.len()
            invariant
                i <= self.models@.len(),
                forall|j: int|
                    0 <= j < i ==> !((#[trigger] self.models@[j]).config.name@
                        == self.app.chat_model_name@ && self.models@[j].config.vision
                        == ModelFeatureState::Enable),
            decreases self.models@.len() - i,
        {
            if same_text(&self.models[i].config.name, &self.app.chat_model_name)
                && self.models[i].config.vision.is_enabled() {
                return true;
            }
            i += 1;
        }
        false
    }
}

proof fn lemma_provider_position(providers: Seq<ProviderConfig>, n: nat, name: Seq<char>)
    requires
        n <= providers.len(),
    ensures
        match provider_position(providers, n, name) {
            Some(i) => 0 <= i < n && providers[i].name@ == name,
            None => forall|i: int| 0 <= i < n ==> (#[trigger] providers[i]).name@ != name,
        },
    decreases n,
{
    if n > 0 {
        lemma_provider_position(providers, (n - 1) as nat, name);
    }
}

proof fn lemma_sound_providers(providers: Seq<ProviderConfig>, n: nat, i: int, j: int)
    requires
        n <= providers.len(),
        provider_fault(providers, n) is None,
        0 <= i < j < n,
    ensures
        providers[i].name@ != providers[j].name@,
    decreases n,
{
    if j == n - 1 {
        lemma_provider_position(providers, (n - 1) as nat, providers[j].name@);
    } else {
        lemma_sound_providers(providers, (n - 1) as nat, i, j);
    }
}

proof fn lemma_sound_models(
    providers: Seq<ProviderConfig>,
    models: Seq<ModelConfig>,
    n: nat,
    j: int,
)
    requires
        model_fault(providers, models, n) is None,
        0 <= j < n,
    ensures
        one_model_fault(providers, models, j) is None,
    decreases n,
{
    if j < n - 1 {
        lemma_sound_models(providers, models, (n - 1) as nat, j);
    }
}

/// In a configuration that is accepted, no two providers and no two models share a name, and each
/// model names a provider that exists.
pub proof fn law_sound_configurations(
    app: AppSection,
    providers: Seq<ProviderConfig>,
    models: Seq<ModelConfig>,
)
    requires
        config_fault(app, providers, models) is None,
    ensures
        forall|i: int, j: int|
            0 <= i < j < providers.len() ==> (#[trigger] providers[i]).name@ != (
            #[trigger] providers[j]).name@,
        forall|i: int, j: int|
            0 <= i < j < models.len() ==> (#[trigger] models[i]).name@ != (
            #[trigger] models[j]).name@,
        forall|j: int|
            0 <= j < models.len() ==> provider_position(
                providers,
                providers.len(),
                (#[trigger] models[j]).provider@,
            ) is Some,
{
    assert forall|i: int, j: int| 0 <= i < j < providers.len() implies (
    #[trigger] providers[i]).name@ != (#[trigger] providers[j]).name@ by {
        lemma_sound_providers(providers, providers.len(), i, j);
    }
    assert forall|i: int, j: int| 0 <= i < j < models.len() implies (#[trigger] models[i]).name@
        != (#[trigger] models[j]).name@ by {
        lemma_sound_models(providers, models, models.len(), j);
        assert(!model_named(models, j as nat, models[j].name@));
    }
    assert forall|j: int| 0 <= j < models.len() implies provider_position(
        providers,
        providers.len(),
        (#[trigger] models[j]).provider@,
    ) is Some by {
        lemma_sound_models(providers, models, models.len(), j);
    }
}

/// Whether the name of an action cannot stand for a file of its own.
pub open spec fn action_name_escapes(name: Seq<char>) -> bool {
    name.contains('/') || name.contains('\\') || has_text(name, ".."@)
}

/// The names of the actions that are on: trimmed, without the blank ones.
pub open spec fn enabled_actions_of(names: Seq<Seq<char>>) -> Result<
    Seq<Seq<char>>,
    ConfigErrorView,
>
    decreases names.len(),
{
    if names.len() == 0 {
        Ok(Seq::empty())
    } else {
        match enabled_actions_of(names.drop_last()) {
            Err(e) => Err(e),
            Ok(list) => {
                let name = trim_of(names.last());
                if name.len() == 0 {
                    Ok(list)
                } else if action_name_escapes(name) {
                    Err(ConfigErrorView::BadActionName { name })
                } else {
                    Ok(list.push(name))
                }
            },
        }
    }
}

proof fn lemma_enabled_actions_error(names: Seq<Seq<char>>, n: int)
    requires
        0 <= n <= names.len(),
        enabled_actions_of(names.take(n)) is Err,
    ensures
        enabled_actions_of(names) == enabled_actions_of(names.take(n)),
    decreases names.len() - n,
{
    if n < names.len() {
        assert(names.take(n + 1).drop_last() =~= names.take(n));
        lemma_enabled_actions_error(names, n + 1);
    } else {
        assert(names.take(n) =~= names);
    }
}

/// The names of the actions that are on.
pub fn enabled_action_names(enabled_actions: &Vec<String>) -> (r: Result<Vec<String>, ConfigError>)
    ensures
        match r {
            Ok(names) => enabled_actions_of(texts(enabled_actions@)) == Ok::<
                Seq<Seq<char>>,
                ConfigErrorView,
            >(texts(names@)),
            Err(e) => enabled_actions_of(texts(enabled_actions@)) == Err::<
                Seq<Seq<char>>,
                ConfigErrorView,
            >(e@),
        },
{
    let ghost all = texts(enabled_actions@);
    let mut names: Vec<String> = Vec::new();
    let mut i: usize = 0;
    assert(all.take(0) =~= Seq::empty());
    assert(texts(names@) =~= Seq::empty());
    while i < enabled_actions.len()
        invariant
            i <= enabled_actions@.len(),
            all == texts(enabled_actions@),
            enabled_actions_of(all.take(i as int)) == Ok::<Seq<Seq<char>>, ConfigErrorView>(
                texts(names@),
            ),
        decreases enabled_actions@.len() - i,
    {
        assert(all.take(i + 1).drop_last() =~= all.take(i as int));
        let name = trim(&enabled_actions[i]);
        if !name.is_empty() {
            if contains_char(&name, '/') || contains_char(&name, '\\') || contains_text(
                &name,
                "..",
            ) {
                proof {
                    lemma_enabled_actions_error(all, i + 1);
                }
                return Err(ConfigError::BadActionName { name });
            }
            let ghost before = texts(names@);
            let ghost added = name@;
            names.push(name);
            assert(texts(names@) =~= before.push(added));
        }
        i += 1;
    }
    assert(all.take(i as int) =~= all);
    Ok(names)
}

/// Texts, each trimmed.
pub open spec fn trimmed_texts(list: Seq<Seq<char>>) -> Seq<Seq<char>> {
    Seq::new(list.len(), |i: int| trim_of(list[i]))
}

/// The prompts of actions in one text.
pub fn join_action_prompts(prompts: &Vec<String>) -> (r: String)
    ensures
        r@ == join_of(trimmed_texts(texts(prompts@)), "\n\n"@),
{
    let ghost listed = trimmed_texts(texts(prompts@));
    let mut trimmed: Vec<String> = Vec::new();
    let mut i: usize = 0;
    while i < prompts.len()
        invariant
            i <= prompts@.len(),
            listed == trimmed_texts(texts(prompts@)),
            texts(trimmed@) =~= listed.take(i as int),
        decreases prompts@.len() - i,
    {
        let one = trim(&prompts[i]);
        let ghost before = texts(trimmed@);
        let ghost added = one@;
        trimmed.push(one);
        assert(texts(trimmed@) =~= before.push(added));
        assert(listed.take(i + 1) =~= listed.take(i as int).push(listed[i as int]));
        i += 1;
    }
    assert(listed.take(i as int) =~= listed);
    join(&trimmed, "\n\n")
}

impl PromptConfig {
    /// The prompts from their templates: the system's holds the prompts of the actions, the
    /// filter's that of the character.
    pub fn new(
        system_template: &str,
        action_prompts: &Vec<String>,
        character_prompt: String,
        instruction_prompt: String,
        filter_template: &str,
    ) -> (r: PromptConfig)
        ensures
            r.system_prompt@ == replace_of(
                system_template@,
                "{{enabled_actions}}"@,
                trim_of(join_of(trimmed_texts(texts(action_prompts@)), "\n\n"@)),
            ),
            r.character_prompt == character_prompt,
            r.instruction_prompt == instruction_prompt,
            r.filter_prompt@ == replace_of(
                filter_template@,
                "{{character_prompt}}"@,
                trim_of(character_prompt@),
            ),
    {
        let actions = trim(&join_action_prompts(action_prompts));
        let system_prompt = replace(system_template, "{{enabled_actions}}", &actions);
        let filter_prompt = replace(
            filter_template,
            "{{character_prompt}}",
            &trim(&character_prompt),
        );
        PromptConfig { system_prompt, character_prompt, instruction_prompt, filter_prompt }
    }
}

/// What pairs of texts hold.
pub open spec fn pairs_view(pairs: Seq<(String, String)>) -> Seq<(Seq<char>, Seq<char>)> {
    Seq::new(pairs.len(), |i: int| (pairs[i].0@, pairs[i].1@))
}

/// A template with a value in place of each of its names, one after the other.
pub open spec fn rendered_template(
    template: Seq<char>,
    values: Seq<(Seq<char>, Seq<char>)>,
) -> Seq<char>
    decreases values.len(),
{
    if values.len() == 0 {
        template
    } else {
        replace_of(
            rendered_template(template, values.drop_last()),
            "{{"@ + values.last().0 + "}}"@,
            values.last().1,
        )
    }
}

/// A template with a value in place of each of its names.
pub fn render_prompt_template(template: &str, values: &Vec<(String, String)>) -> (r: String)
    ensures
        r@ == rendered_template(template@, pairs_view(values@)),
{
    let ghost all = pairs_view(values@);
    let mut r = template.to_owned();
    let mut i: usize = 0;
    assert(all.take(0) =~= Seq::empty());
    while i < values.len()
        invariant
            i <= values@.len(),
            all == pairs_view(values@),
            r@ == rendered_template(template@, all.take(i as int)),
        decreases values@.len() - i,
    {
        assert(all.take(i + 1).drop_last() =~= all.take(i as int));
        let mut name = "{{".to_owned();
        name.push_str(&values[i].0);
        name.push_str("}}");
        r = replace(&r, &name, &values[i].1);
        i += 1;
    }
    assert(all.take(i as int) =~= all);
    r
}

/// The names of faces in a document: an object that holds nothing but texts.
pub open spec fn faces_in(fields: Seq<(Seq<char>, JsonView)>) -> Option<Seq<(Seq<char>, Seq<char>)>>
    decreases fields.len(),
{
    if fields.len() == 0 {
        Some(Seq::empty())
    } else {
        match (faces_in(fields.drop_last()), fields.last().1) {
            (Some(faces), JsonView::Text(name)) => Some(faces.push((fields.last().0, name))),
            _ => None,
        }
    }
}

/// The names of faces in a document.
pub open spec fn face_map_of(parsed: Option<JsonView>) -> Option<Seq<(Seq<char>, Seq<char>)>> {
    match parsed {
        Some(JsonView::Object(fields)) => faces_in(fields),
        _ => None,
    }
}

proof fn lemma_faces_none(fields: Seq<(Seq<char>, JsonView)>, n: int)
    requires
        0 <= n <= fields.len(),
        faces_in(fields.take(n)) is None,
    ensures
        faces_in(fields) is None,
    decreases fields.len() - n,
{
    if n < fields.len() {
        assert(fields.take(n + 1).drop_last() =~= fields.take(n));
        lemma_faces_none(fields, n + 1);
    } else {
        assert(fields.take(n) =~= fields);
    }
}

/// The names of faces in a document.
pub fn read_face_map(document: &Json) -> (r: Option<Vec<(String, String)>>)
    ensures
        match r {
            Some(faces) => face_map_of(Some(document@)) == Some(pairs_view(faces@)),
            None => face_map_of(Some(document@)) is None,
        },
{
    match document {
        Json::Object(fields) => {
            let ghost all = crate::json::fields_view(fields@);
            assert(document@->Object_0 =~= all);
            let mut faces: Vec<(String, String)> = Vec::new();
            let mut i: usize = 0;
            assert(all.take(0) =~= Seq::empty());
            assert(pairs_view(faces@) =~= Seq::empty());
            while i < fields.len()
                invariant
                    i <= fields@.len(),
                    all == crate::json::fields_view(fields@),
                    document@ == JsonView::Object(all),
                    faces_in(all.take(i as int)) == Some(pairs_view(faces@)),
                decreases fields@.len() - i,
            {
                assert(all.take(i + 1).drop_last() =~= all.take(i as int));
                match &fields[i].1 {
                    Json::Text(name) => {
                        let ghost before = pairs_view(faces@);
                        faces.push((fields[i].0.clone(), name.clone()));
                        assert(pairs_view(faces@) =~= before.push(
                            (fields@[i as int].0@, name@),
                        ));
                    },
                    _ => {
                        proof {
                            lemma_faces_none(all, i + 1);
                        }
                        return None;
                    },
                }
                i += 1;
            }
            assert(all.take(i as int) =~= all);
            Some(faces)
        },
        _ => None,
    }
}

/// The names of faces in the text of a document.
pub fn parse_face_map(text: &str) -> (r: Option<Vec<(String, String)>>)
    ensures
        match r {
            Some(faces) => face_map_of(json_parsed(text@)) == Some(pairs_view(faces@)),
            None => face_map_of(json_parsed(text@)) is None,
        },
{
    match parse_json(text) {
        Some(document) => read_face_map(&document),
        None => None,
    }
}

/// Whether names and values can stand in a template: the names differ and hold no braces, and the
/// values hold no opening ones.
pub open spec fn values_fit(values: Seq<(Seq<char>, Seq<char>)>) -> bool {
    &&& forall|i: int|
        0 <= i < values.len() ==> no_braces((#[trigger] values[i]).0) && no_opening(values[i].1)
    &&& forall|i: int, j: int|
        0 <= i < j < values.len() ==> (#[trigger] values[i]).0 != (#[trigger] values[j]).0
}

proof fn lemma_rendered(
    a: Seq<char>,
    b: Seq<char>,
    values: Seq<(Seq<char>, Seq<char>)>,
    k: int,
    n: int,
)
    requires
        values_fit(values),
        no_opening(a),
        no_opening(b),
        0 <= k < values.len(),
        0 <= n <= values.len(),
    ensures
        rendered_template(a + mark(values[k].0) + b, values.take(n)) == if n <= k {
            a + mark(values[k].0) + b
        } else {
            a + values[k].1 + b
        },
    decreases n,
{
    if n > 0 {
        lemma_rendered(a, b, values, k, n - 1);
        assert(values.take(n).drop_last() =~= values.take(n - 1));
        let last = values[n - 1];
        assert(no_braces(last.0));
        if n - 1 <= k {
            lemma_one_mark(a, values[k].0, b, last.0, last.1);
            if n - 1 < k {
                assert(last.0 != values[k].0);
            }
        } else {
            let filled = a + values[k].1 + b;
            assert(no_opening(filled)) by {
                assert forall|j: int| 0 <= j < filled.len() implies #[trigger] filled[j] != '{' by {
                    if j < a.len() {
                        assert(filled[j] == a[j]);
                    } else if j < a.len() + values[k].1.len() {
                        assert(filled[j] == values[k].1[j - a.len()]);
                    } else {
                        assert(filled[j] == b[j - a.len() - values[k].1.len()]);
                    }
                }
            }
            lemma_no_mark(filled, last.0, last.1);
        }
    }
}

/// A name in a template is replaced by its own value, and what stands around it stays.
pub proof fn law_names_get_their_own_values(
    a: Seq<char>,
    b: Seq<char>,
    values: Seq<(Seq<char>, Seq<char>)>,
    k: int,
)
    requires
        values_fit(values),
        no_opening(a),
        no_opening(b),
        0 <= k < values.len(),
    ensures
        rendered_template(a + "{{"@ + values[k].0 + "}}"@ + b, values) == a + values[k].1 + b,
{
    lemma_rendered(a, b, values, k, values.len() as int);
    assert(values.take(values.len() as int) =~= values);
    assert(a + "{{"@ + values[k].0 + "}}"@ + b =~= a + mark(values[k].0) + b);
}

} // verus!
