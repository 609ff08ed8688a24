//! The configuration as the pages show and change it.

use vstd::prelude::*;

use base64::Engine;
use rand::RngCore;

use crate::config::{
    trimmed_texts, AppSection, ModelConfig, ModelFeatureState, ProviderConfig, ServerSection,
};
use crate::json::option_text;
use crate::message_enricher::{file_ending, last_dot};
use crate::text::{
    blank, chars_of, is_blank, is_listed, is_plain_name, law_trimmed_once, lemma_listed, listed,
    plain_name, same_text, sort_texts, starts_with, strip_prefix, text_between, texts,
    texts_in_order, trim, trim_end_char, trim_end_char_of, trim_end_of, trim_of, trim_prefix,
    trim_prefix_of, trim_start_of, without_prefix,
};

verus! {

/// How the program behaves, as a page shows it.
#[derive(Debug, PartialEq, Eq)]
pub struct AdminAppConfig {
    pub chat_model_name: String,
    pub filter_model_name: String,
    pub web_search_model_name: String,
    pub visual_model_name: String,
    pub max_history_messages: u32,
    pub vision_image_message_window: usize,
    pub ai_request_retry_count: u32,
    pub ai_request_timeout_seconds: u64,
    pub enabled_actions: Vec<String>,
    pub direct_whitelist: Vec<String>,
    pub group_whitelist: Vec<String>,
    pub command_whitelist: Vec<String>,
}

/// Where the program listens and where the platform is, as a page shows it.
#[derive(Debug, PartialEq, Eq)]
pub struct AdminServerConfig {
    pub server_host: String,
    pub server_port: u16,
    pub server_token_configured: bool,
    /// A new token; a page never gets the one that is set.
    pub server_token: Option<String>,
    pub onebot_api: String,
    pub onebot_token_configured: bool,
    pub onebot_token: Option<String>,
}

/// A provider, as a page shows it.
#[derive(Debug, PartialEq, Eq)]
pub struct AdminProviderConfig {
    pub name: String,
    /// The name under which it is stored, where it gets another one.
    pub original_name: Option<String>,
    pub kind: String,
    pub base_url: String,
    pub key_configured: bool,
    /// A new key; a page never gets the one that is set.
    pub key: Option<String>,
}

/// A model, as a page shows it.
#[derive(Debug, PartialEq, Eq)]
pub struct AdminModelConfig {
    pub name: String,
    pub provider: String,
    pub model: String,
    pub max_tokens: Option<i32>,
    pub reasoning_effort: String,
    pub vision: ModelFeatureState,
}

/// A change of the configuration.
#[derive(Debug, PartialEq, Eq)]
pub struct AdminConfigUpdate {
    pub app: AdminAppConfig,
    pub server: AdminServerConfig,
    pub providers: Vec<AdminProviderConfig>,
    pub models: Vec<AdminModelConfig>,
}

/// Whether a page shows a part of the configuration as it is.
pub open spec fn shows_app(shown: AdminAppConfig, app: AppSection) -> bool {
    &&& shown.chat_model_name@ == app.chat_model_name@
    &&& shown.filter_model_name@ == app.filter_model_name@
    &&& shown.web_search_model_name@ == app.web_search_model_name@
    &&& shown.visual_model_name@ == app.visual_model_name@
    &&& shown.max_history_messages == app.max_history_messages
    &&& shown.vision_image_message_window == app.vision_image_message_window
    &&& shown.ai_request_retry_count == app.ai_request_retry_count
    &&& shown.ai_request_timeout_seconds == app.ai_request_timeout_seconds
    &&& texts(shown.enabled_actions@) == texts(app.enabled_actions@)
    &&& texts(shown.direct_whitelist@) == texts(app.direct_whitelist@)
    &&& texts(shown.group_whitelist@) == texts(app.group_whitelist@)
    &&& texts(shown.command_whitelist@) == texts(app.command_whitelist@)
}

pub(crate) fn copy_texts(list: &Vec<String>) -> (r: Vec<String>)
    ensures
        texts(r@) == texts(list@),
{
    let mut r: Vec<String> = Vec::new();
    let mut i: usize = 0;
    while i < list.len()
        invariant
            i <= list@.len(),
            texts(r@) =~= texts(list@).take(i as int),
        decreases list@.len() - i,
    {
        let ghost before = texts(r@);
        r.push(list[i].clone());
        assert(texts(r@) =~= before.push(texts(list@)[i as int]));
        i += 1;
    }
    assert(texts(list@).take(i as int) =~= texts(list@));
    r
}

/// How the program behaves, as a page shows it.
pub fn show_app(app: &AppSection) -> (r: AdminAppConfig)
    ensures
        shows_app(r, *app),
{
    AdminAppConfig {
        chat_model_name: app.chat_model_name.clone(),
        filter_model_name: app.filter_model_name.clone(),
        web_search_model_name: app.web_search_model_name.clone(),
        visual_model_name: app.visual_model_name.clone(),
        max_history_messages: app.max_history_messages,
        vision_image_message_window: app.vision_image_message_window,
        ai_request_retry_count: app.ai_request_retry_count,
        ai_request_timeout_seconds: app.ai_request_timeout_seconds,
        enabled_actions: copy_texts(&app.enabled_actions),
        direct_whitelist: copy_texts(&app.direct_whitelist),
        group_whitelist: copy_texts(&app.group_whitelist),
        command_whitelist: copy_texts(&app.command_whitelist),
    }
}

/// Whether a page shows where the program listens: whether a token is set, but never which one.
pub open spec fn shows_server(shown: AdminServerConfig, server: ServerSection) -> bool {
    &&& shown.server_host@ == server.server_host@
    &&& shown.server_port == server.server_port
    &&& shown.server_token_configured == (server.server_token@.len() > 0)
    &&& shown.server_token is None
    &&& shown.onebot_api@ == server.onebot_api@
    &&& shown.onebot_token_configured == (server.onebot_token@.len() > 0)
    &&& shown.onebot_token is None
}

/// Where the program listens and where the platform is, as a page shows it.
pub fn show_server(server: &ServerSection) -> (r: AdminServerConfig)
    ensures
        shows_server(r, *server),
{
    AdminServerConfig {
        server_host: server.server_host.clone(),
        server_port: server.server_port,
        server_token_configured: !server.server_token.is_empty(),
        server_token: None,
        onebot_api: server.onebot_api.clone(),
        onebot_token_configured: !server.onebot_token.is_empty(),
        onebot_token: None,
    }
}

/// Whether a page shows a provider: whether a key is set, but never which one.
pub open spec fn shows_provider(shown: AdminProviderConfig, provider: ProviderConfig) -> bool {
    &&& shown.name@ == provider.name@
    &&& option_text(shown.original_name) == Some(provider.name@)
    &&& shown.kind@ == provider.kind@
    &&& shown.base_url@ == provider.base_url@
    &&& shown.key_configured == (provider.key@.len() > 0)
    &&& shown.key is None
}

/// A provider, as a page shows it.
pub fn show_provider(provider: &ProviderConfig) -> (r: AdminProviderConfig)
    ensures
        shows_provider(r, *provider),
{
    AdminProviderConfig {
        name: provider.name.clone(),
        original_name: Some(provider.name.clone()),
        kind: provider.kind.clone(),
        base_url: provider.base_url.clone(),
        key_configured: !provider.key.is_empty(),
        key: None,
    }
}

/// Whether a page shows a model.
pub open spec fn shows_model(shown: AdminModelConfig, model: ModelConfig) -> bool {
    &&& shown.name@ == model.name@
    &&& shown.provider@ == model.provider@
    &&& shown.model@ == model.model@
    &&& shown.max_tokens == Some(model.max_tokens)
    &&& shown.reasoning_effort@ == model.reasoning_effort@
    &&& shown.vision == model.vision
}

/// A model, as a page shows it.
pub fn show_model(model: &ModelConfig) -> (r: AdminModelConfig)
    ensures
        shows_model(r, *model),
{
    AdminModelConfig {
        name: model.name.clone(),
        provider: model.provider.clone(),
        model: model.model.clone(),
        max_tokens: Some(model.max_tokens),
        reasoning_effort: model.reasoning_effort.clone(),
        vision: model.vision,
    }
}

/// The configuration as a page shows it.
#[derive(Debug, PartialEq, Eq)]
pub struct AdminConfigView {
    pub app: AdminAppConfig,
    pub server: AdminServerConfig,
    pub providers: Vec<AdminProviderConfig>,
    pub models: Vec<AdminModelConfig>,
}

impl AdminConfigView {
    /// The configuration as a page shows it.
    pub fn from_config(
        app: &AppSection,
        server: &ServerSection,
        providers: &Vec<ProviderConfig>,
        models: &Vec<ModelConfig>,
    ) -> (r: AdminConfigView)
        ensures
            shows_app(r.app, *app),
            shows_server(r.server, *server),
            r.providers@.len() == providers@.len(),
            forall|i: int|
                0 <= i < providers@.len() ==> shows_provider(
                    #[trigger] r.providers@[i],
                    providers@[i],
                ),
            r.models@.len() == models@.len(),
            forall|i: int|
                0 <= i < models@.len() ==> shows_model(#[trigger] r.models@[i], models@[i]),
    {
        let mut shown_providers: Vec<AdminProviderConfig> = Vec::new();
        let mut i: usize = 0;
        while i < providers.len()
            invariant
                i <= providers@.len(),
                shown_providers@.len() == i,
                forall|j: int|
                    0 <= j < i ==> shows_provider(#[trigger] shown_providers@[j], providers@[j]),
            decreases providers@.len() - i,
        {
            shown_providers.push(show_provider(&providers[i]));
            i += 1;
        }
        let mut shown_models: Vec<AdminModelConfig> = Vec::new();
        let mut k: usize = 0;
        while k < models.len()
            invariant
                k <= models@.len(),
                shown_models@.len() == k,
                forall|j: int|
                    0 <= j < k ==> shows_model(#[trigger] shown_models@[j], models@[j]),
            decreases models@.len() - k,
        {
            shown_models.push(show_model(&models[k]));
            k += 1;
        }
        AdminConfigView {
            app: show_app(app),
            server: show_server(server),
            providers: shown_providers,
            models: shown_models,
        }
    }
}

/// Why a change of the configuration is refused.
#[derive(Debug, PartialEq, Eq)]
pub enum UpdateError {
    NoHistory,
    BadDelay,
    MissingAddress,
    DuplicateTool,
    UnknownTool { name: String },
    NoSearchModel,
    BadProviderNames,
    BadModelNames,
    UnknownProvider { model: String },
    BadMaxTokens { model: String },
}

/// What an error holds.
pub enum UpdateErrorView {
    NoHistory,
    BadDelay,
    MissingAddress,
    DuplicateTool,
    UnknownTool { name: Seq<char> },
    NoSearchModel,
    BadProviderNames,
    BadModelNames,
    UnknownProvider { model: Seq<char> },
    BadMaxTokens { model: Seq<char> },
}

impl View for UpdateError {
    type V = UpdateErrorView;

    open spec fn view(&self) -> UpdateErrorView {
        match self {
            UpdateError::NoHistory => UpdateErrorView::NoHistory,
            UpdateError::BadDelay => UpdateErrorView::BadDelay,
            UpdateError::MissingAddress => UpdateErrorView::MissingAddress,
            UpdateError::DuplicateTool => UpdateErrorView::DuplicateTool,
            UpdateError::UnknownTool { name } => UpdateErrorView::UnknownTool { name: name@ },
            UpdateError::NoSearchModel => UpdateErrorView::NoSearchModel,
            UpdateError::BadProviderNames => UpdateErrorView::BadProviderNames,
            UpdateError::BadModelNames => UpdateErrorView::BadModelNames,
            UpdateError::UnknownProvider { model } => UpdateErrorView::UnknownProvider {
                model: model@,
            },
            UpdateError::BadMaxTokens { model } => UpdateErrorView::BadMaxTokens { model: model@ },
        }
    }
}

/// What an error says.
pub open spec fn update_error_text(error: UpdateErrorView) -> Seq<char> {
    match error {
        UpdateErrorView::NoHistory => "历史消息数必须大于 0"@,
        UpdateErrorView::BadDelay => "随机回复延时必须是非负数"@,
        UpdateErrorView::MissingAddress => "监听地址和 OneBot API 不能为空"@,
        UpdateErrorView::DuplicateTool => "启用的可选工具不能重复"@,
        UpdateErrorView::UnknownTool { name } => "未知的可选工具："@ + name,
        UpdateErrorView::NoSearchModel => "启用网络搜索前必须选择联网搜索模型"@,
        UpdateErrorView::BadProviderNames => "Provider 名称不能为空或重复"@,
        UpdateErrorView::BadModelNames => "模型名称不能为空或重复"@,
        UpdateErrorView::UnknownProvider { model } => "模型 "@ + model + " 引用了不存在的 Provider"@,
        UpdateErrorView::BadMaxTokens { model } => "模型 "@ + model + " 的最大输出长度必须大于 0"@,
    }
}

impl UpdateError {
    /// What the error says.
    pub fn message(&self) -> (r: String)
        ensures
            r@ == update_error_text(self@),
    {
        match self {
            UpdateError::NoHistory => "历史消息数必须大于 0".to_owned(),
            UpdateError::BadDelay => "随机回复延时必须是非负数".to_owned(),
            UpdateError::MissingAddress => "监听地址和 OneBot API 不能为空".to_owned(),
            UpdateError::DuplicateTool => "启用的可选工具不能重复".to_owned(),
            UpdateError::UnknownTool { name } => {
                let mut r = "未知的可选工具：".to_owned();
                r.push_str(name);
                r
            },
            UpdateError::NoSearchModel => "启用网络搜索前必须选择联网搜索模型".to_owned(),
            UpdateError::BadProviderNames => "Provider 名称不能为空或重复".to_owned(),
            UpdateError::BadModelNames => "模型名称不能为空或重复".to_owned(),
            UpdateError::UnknownProvider { model } => {
                let mut r = "模型 ".to_owned();
                r.push_str(model);
                r.push_str(" 引用了不存在的 Provider");
                r
            },
            UpdateError::BadMaxTokens { model } => {
                let mut r = "模型 ".to_owned();
                r.push_str(model);
                r.push_str(" 的最大输出长度必须大于 0");
                r
            },
        }
    }
}

/// The names of providers, trimmed.
pub open spec fn provider_names(providers: Seq<AdminProviderConfig>) -> Seq<Seq<char>> {
    Seq::new(providers.len(), |i: int| trim_of(providers[i].name@))
}

/// The names of models, trimmed.
pub open spec fn model_names(models: Seq<AdminModelConfig>) -> Seq<Seq<char>> {
    Seq::new(models.len(), |i: int| trim_of(models[i].name@))
}

/// The first of the first `n` names that is no tool.
pub open spec fn unknown_tool(names: Seq<Seq<char>>, tools: Seq<String>, n: nat) -> Option<Seq<char>>
    decreases n,
{
    if n == 0 {
        None
    } else {
        match unknown_tool(names, tools, (n - 1) as nat) {
            Some(name) => Some(name),
            None => if listed(tools, names[n - 1]) {
                None
            } else {
                Some(names[n - 1])
            },
        }
    }
}

/// What is wrong with the first `n` models.
pub open spec fn models_fault(
    models: Seq<AdminModelConfig>,
    providers: Seq<Seq<char>>,
    n: nat,
) -> Option<UpdateErrorView>
    decreases n,
{
    if n == 0 {
        None
    } else {
        match models_fault(models, providers, (n - 1) as nat) {
            Some(e) => Some(e),
            None => {
                let model = models[n - 1];
                if !providers.contains(trim_of(model.provider@)) {
                    Some(UpdateErrorView::UnknownProvider { model: model.name@ })
                } else if model.max_tokens matches Some(limit) && limit <= 0 {
                    Some(UpdateErrorView::BadMaxTokens { model: model.name@ })
                } else {
                    None
                }
            },
        }
    }
}

/// What is wrong with a change of the configuration. `delay_fits` tells whether the delay of answers
/// is a number that is not negative, and `tools` lists the tools that can be switched on.
pub open spec fn update_fault(
    update: AdminConfigUpdate,
    delay_fits: bool,
    tools: Seq<String>,
) -> Option<UpdateErrorView> {
    let enabled = trimmed_texts(texts(update.app.enabled_actions@));
    let providers = provider_names(update.providers@);
    let models = model_names(update.models@);
    if update.app.max_history_messages == 0 {
        Some(UpdateErrorView::NoHistory)
    } else if !delay_fits {
        Some(UpdateErrorView::BadDelay)
    } else if is_blank(update.server.server_host@) || is_blank(update.server.onebot_api@) {
        Some(UpdateErrorView::MissingAddress)
    } else if !enabled.no_duplicates() {
        Some(UpdateErrorView::DuplicateTool)
    } else if unknown_tool(enabled, tools, enabled.len()) is Some {
        Some(
            UpdateErrorView::UnknownTool {
                name: unknown_tool(enabled, tools, enabled.len()).unwrap(),
            },
        )
    } else if enabled.contains("agent_web_search"@) && is_blank(update.app.web_search_model_name@) {
        Some(UpdateErrorView::NoSearchModel)
    } else if !providers.no_duplicates() || providers.contains(Seq::<char>::empty()) {
        Some(UpdateErrorView::BadProviderNames)
    } else if !models.no_duplicates() || models.contains(Seq::<char>::empty()) {
        Some(UpdateErrorView::BadModelNames)
    } else {
        models_fault(update.models@, providers, update.models@.len())
    }
}

fn has_duplicates(list: &Vec<String>) -> (r: bool)
    ensures
        r == !texts(list@).no_duplicates(),
{
    let ghost all = texts(list@);
    let mut i: usize = 0;
    while i < list.len()
        invariant
            i <= list@.len(),
            all == texts(list@),
            forall|a: int, b: int| 0 <= a < b < i ==> #[trigger] all[a] != #[trigger] all[b],
        decreases list@.len() - i,
    {
        let mut j: usize = 0;
        while j < i
            invariant
                j <= i < list@.len(),
                all == texts(list@),
                forall|a: int| 0 <= a < j ==> #[trigger] all[a] != all[i as int],
            decreases i - j,
        {
            if same_text(&list[j], &list[i]) {
                assert(all[j as int] == all[i as int]);
                return true;
            }
            j += 1;
        }
        i += 1;
    }
    assert(all.no_duplicates()) by {
        assert forall|a: int, b: int|
            0 <= a < all.len() && 0 <= b < all.len() && a != b implies all[a] != all[b] by {
            if a > b {
                assert(all[b] != all[a]);
            }
        }
    }
    false
}

fn trim_all(list: &Vec<String>) -> (r: Vec<String>)
    ensures
        texts(r@) == trimmed_texts(texts(list@)),
{
    let ghost all = trimmed_texts(texts(list@));
    let mut r: Vec<String> = Vec::new();
    let mut i: usize = 0;
    while i < list.len()
        invariant
            i <= list@.len(),
            all == trimmed_texts(texts(list@)),
            texts(r@) =~= all.take(i as int),
        decreases list@.len() - i,
    {
        let ghost before = texts(r@);
        r.push(trim(&list[i]));
        assert(texts(r@) =~= before.push(all[i as int]));
        i += 1;
    }
    assert(all.take(i as int) =~= all);
    r
}

fn list_provider_names(providers: &Vec<AdminProviderConfig>) -> (r: Vec<String>)
    ensures
        texts(r@) == provider_names(providers@),
{
    let ghost all = provider_names(providers@);
    let mut r: Vec<String> = Vec::new();
    let mut i: usize = 0;
    while i < providers.len()
        invariant
            i <= providers@.len(),
            all == provider_names(providers@),
            texts(r@) =~= all.take(i as int),
        decreases providers@.len() - i,
    {
        let ghost before = texts(r@);
        r.push(trim(&providers[i].name));
        assert(texts(r@) =~= before.push(all[i as int]));
        i += 1;
    }
    assert(all.take(i as int) =~= all);
    r
}

fn list_model_names(models: &Vec<AdminModelConfig>) -> (r: Vec<String>)
    ensures
        texts(r@) == model_names(models@),
{
    let ghost all = model_names(models@);
    let mut r: Vec<String> = Vec::new();
    let mut i: usize = 0;
    while i < models.len()
        invariant
            i <= models@.len(),
            all == model_names(models@),
            texts(r@) =~= all.take(i as int),
        decreases models@.len() - i,
    {
        let ghost before = texts(r@);
        r.push(trim(&models[i].name));
        assert(texts(r@) =~= before.push(all[i as int]));
        i += 1;
    }
    assert(all.take(i as int) =~= all);
    r
}

fn find_unknown_tool(names: &Vec<String>, tools: &Vec<String>) -> (r: Option<String>)
    ensures
        option_text(r) == unknown_tool(texts(names@), tools@, names@.len()),
{
    let ghost all = texts(names@);
    let mut found: Option<String> = None;
    let mut i: usize = 0;
    while i < names.len()
        invariant
            i <= names@.len(),
            all == texts(names@),
            option_text(found) == unknown_tool(all, tools@, i as nat),
        decreases names@.len() - i,
    {
        assert(all[i as int] == names@[i as int]@);
        if found.is_none() && !is_listed(tools, &names[i]) {
            found = Some(names[i].clone());
        }
        i += 1;
    }
    found
}

proof fn lemma_models_fault(
    models: Seq<AdminModelConfig>,
    providers: Seq<Seq<char>>,
    n: nat,
    m: nat,
)
    requires
        n <= m,
        models_fault(models, providers, n) is Some,
    ensures
        models_fault(models, providers, m) == models_fault(models, providers, n),
    decreases m,
{
    if n < m {
        lemma_models_fault(models, providers, n, (m - 1) as nat);
    }
}

fn check_models(models: &Vec<AdminModelConfig>, providers: &Vec<String>) -> (r: Result<
    (),
    UpdateError,
>)
    ensures
        match r {
            Ok(()) => models_fault(models@, texts(providers@), models@.len()) is None,
            Err(e) => models_fault(models@, texts(providers@), models@.len()) == Some(e@),
        },
{
    let ghost known = texts(providers@);
    let mut i: usize = 0;
    while i < models.len()
        invariant
            i <= models@.len(),
            known == texts(providers@),
            models_fault(models@, known, i as nat) is None,
        decreases models@.len() - i,
    {
        let model = &models[i];
        let provider = trim(&model.provider);
        proof {
            lemma_listed(providers@, provider@);
            if models_fault(models@, known, (i + 1) as nat) is Some {
                lemma_models_fault(models@, known, (i + 1) as nat, models@.len());
            }
        }
        if !is_listed(providers, &provider) {
            return Err(UpdateError::UnknownProvider { model: model.name.clone() });
        }
        if let Some(limit) = model.max_tokens {
            if limit <= 0 {
                return Err(UpdateError::BadMaxTokens { model: model.name.clone() });
            }
        }
        i += 1;
    }
    Ok(())
}

/// Checks a change of the configuration.
pub fn validate_update(update: &AdminConfigUpdate, delay_fits: bool, tools: &Vec<String>) -> (r:
    Result<(), UpdateError>)
    ensures
        match r {
            Ok(()) => update_fault(*update, delay_fits, tools@) is None,
            Err(e) => update_fault(*update, delay_fits, tools@) == Some(e@),
        },
{
    if update.app.max_history_messages == 0 {
        return Err(UpdateError::NoHistory);
    }
    if !delay_fits {
        return Err(UpdateError::BadDelay);
    }
    if blank(&update.server.server_host) || blank(&update.server.onebot_api) {
        return Err(UpdateError::MissingAddress);
    }
    let enabled = trim_all(&update.app.enabled_actions);
    if has_duplicates(&enabled) {
        return Err(UpdateError::DuplicateTool);
    }
    proof {
        assert(texts(enabled@).len() == enabled@.len());
        lemma_listed(enabled@, "agent_web_search"@);
    }
    if let Some(name) = find_unknown_tool(&enabled, tools) {
        return Err(UpdateError::UnknownTool { name });
    }
    if is_listed(&enabled, "agent_web_search") && blank(&update.app.web_search_model_name) {
        return Err(UpdateError::NoSearchModel);
    }
    let empty = String::new();
    assert(empty@ =~= Seq::<char>::empty());
    let providers = list_provider_names(&update.providers);
    proof {
        lemma_listed(providers@, empty@);
    }
    if has_duplicates(&providers) || is_listed(&providers, &empty) {
        return Err(UpdateError::BadProviderNames);
    }
    let models = list_model_names(&update.models);
    proof {
        lemma_listed(models@, empty@);
    }
    if has_duplicates(&models) || is_listed(&models, &empty) {
        return Err(UpdateError::BadModelNames);
    }
    check_models(&update.models, &providers)
}

/// What pairs of texts hold.
pub open spec fn pairs_view(pairs: Seq<(String, String)>) -> Seq<(Seq<char>, Seq<char>)> {
    Seq::new(pairs.len(), |i: int| (pairs[i].0@, pairs[i].1@))
}

/// The last key that is stored under a name, among the first `n`.
pub open spec fn saved_key(saved: Seq<(Seq<char>, Seq<char>)>, name: Seq<char>, n: nat) -> Option<
    Seq<char>,
>
    decreases n,
{
    if n == 0 {
        None
    } else if saved[n - 1].0 == name {
        Some(saved[n - 1].1)
    } else {
        saved_key(saved, name, (n - 1) as nat)
    }
}

fn find_saved_key(saved: &Vec<(String, String)>, name: &str) -> (r: Option<String>)
    ensures
        option_text(r) == saved_key(pairs_view(saved@), name@, saved@.len()),
{
    let ghost pairs = pairs_view(saved@);
    let mut i: usize = saved.len();
    while i > 0
        invariant
            i <= saved@.len(),
            pairs == pairs_view(saved@),
            saved_key(pairs, name@, saved@.len()) == saved_key(pairs, name@, i as nat),
        decreases i,
    {
        if same_text(&saved[i - 1].0, name) {
            return Some(saved[i - 1].1.clone());
        }
        i -= 1;
    }
    None
}

/// The key of a provider: a new one, or the one that is stored under its name, or under the name
/// that it had.
pub open spec fn provider_key_of(
    provider: AdminProviderConfig,
    saved: Seq<(Seq<char>, Seq<char>)>,
) -> Seq<char> {
    let by_name = saved_key(saved, trim_of(provider.name@), saved.len());
    let by_original = match provider.original_name {
        Some(name) => saved_key(saved, name@, saved.len()),
        None => None,
    };
    match provider.key {
        Some(key) => if key@.len() > 0 {
            key@
        } else {
            stored_key(by_name, by_original)
        },
        None => stored_key(by_name, by_original),
    }
}

/// The first key of two that is there, or none at all.
pub open spec fn stored_key(by_name: Option<Seq<char>>, by_original: Option<Seq<char>>) -> Seq<char> {
    match by_name {
        Some(key) => key,
        None => match by_original {
            Some(key) => key,
            None => Seq::empty(),
        },
    }
}

/// The key of a provider.
pub fn provider_key(provider: &AdminProviderConfig, saved: &Vec<(String, String)>) -> (r: String)
    ensures
        r@ == provider_key_of(*provider, pairs_view(saved@)),
{
    if let Some(key) = &provider.key {
        if !key.is_empty() {
            return key.clone();
        }
    }
    if let Some(key) = find_saved_key(saved, &trim(&provider.name)) {
        return key;
    }
    if let Some(name) = &provider.original_name {
        if let Some(key) = find_saved_key(saved, name) {
            return key;
        }
    }
    let none = String::new();
    assert(none@ =~= Seq::<char>::empty());
    none
}

/// A provider as it is stored.
#[derive(Debug, PartialEq, Eq)]
pub struct ProviderRow {
    pub name: String,
    pub kind: String,
    pub key: String,
    pub base_url: String,
}

/// A provider as it is stored: trimmed, without slashes at the end of its address.
pub fn provider_row(provider: &AdminProviderConfig, saved: &Vec<(String, String)>) -> (r: ProviderRow)
    ensures
        r.name@ == trim_of(provider.name@),
        r.kind@ == trim_of(provider.kind@),
        r.key@ == provider_key_of(*provider, pairs_view(saved@)),
        r.base_url@ == trim_end_char_of(trim_of(provider.base_url@), '/'),
{
    ProviderRow {
        name: trim(&provider.name),
        kind: trim(&provider.kind),
        key: provider_key(provider, saved),
        base_url: trim_end_char(&trim(&provider.base_url), '/'),
    }
}

/// Changing a provider without a new key keeps the key that is stored under its name, also where
/// it gets another name that is free.
pub proof fn law_keys_are_kept(
    provider: AdminProviderConfig,
    saved: Seq<(Seq<char>, Seq<char>)>,
    key: Seq<char>,
)
    requires
        provider.key is None || provider.key.unwrap()@.len() == 0,
        saved_key(saved, trim_of(provider.name@), saved.len()) == Some(key) || (saved_key(
            saved,
            trim_of(provider.name@),
            saved.len(),
        ) is None && provider.original_name is Some && saved_key(
            saved,
            provider.original_name.unwrap()@,
            saved.len(),
        ) == Some(key)),
    ensures
        provider_key_of(provider, saved) == key,
{
}

/// The address and the tokens of the server as they are stored; a token that is absent or empty
/// stays as it is.
#[derive(Debug, PartialEq, Eq)]
pub struct ServerRow {
    pub server_host: String,
    pub onebot_api: String,
    pub server_token: Option<String>,
    pub onebot_token: Option<String>,
}

/// A text that is there and not empty.
pub open spec fn filled(text: Option<Seq<char>>) -> Option<Seq<char>> {
    match text {
        Some(t) => if t.len() == 0 {
            None
        } else {
            Some(t)
        },
        None => None,
    }
}

fn keep_filled(text: &Option<String>) -> (r: Option<String>)
    ensures
        option_text(r) == filled(option_text(*text)),
{
    match text {
        Some(t) => {
            if t.is_empty() {
                None
            } else {
                Some(t.clone())
            }
        },
        None => None,
    }
}

/// The address and the tokens of the server as they are stored.
pub fn server_row(server: &AdminServerConfig) -> (r: ServerRow)
    ensures
        r.server_host@ == trim_of(server.server_host@),
        r.onebot_api@ == trim_end_char_of(trim_of(server.onebot_api@), '/'),
        option_text(r.server_token) == filled(option_text(server.server_token)),
        option_text(r.onebot_token) == filled(option_text(server.onebot_token)),
{
    ServerRow {
        server_host: trim(&server.server_host),
        onebot_api: trim_end_char(&trim(&server.onebot_api), '/'),
        server_token: keep_filled(&server.server_token),
        onebot_token: keep_filled(&server.onebot_token),
    }
}

/// A model as it is stored: trimmed.
pub fn model_row(model: &AdminModelConfig) -> (r: AdminModelConfig)
    ensures
        r.name@ == trim_of(model.name@),
        r.provider@ == trim_of(model.provider@),
        r.model@ == trim_of(model.model@),
        r.max_tokens == model.max_tokens,
        r.reasoning_effort@ == trim_of(model.reasoning_effort@),
        r.vision == model.vision,
{
    AdminModelConfig {
        name: trim(&model.name),
        provider: trim(&model.provider),
        model: trim(&model.model),
        max_tokens: model.max_tokens,
        reasoning_effort: trim(&model.reasoning_effort),
        vision: model.vision,
    }
}

/// What the engine of `base64` for addresses, without padding, writes for bytes.
pub uninterp spec fn base64_url_of(bytes: Seq<u8>) -> Seq<char>;

/// Whether a character is one that `base64` writes for addresses.
pub open spec fn is_url_char(c: char) -> bool {
    ('A' <= c <= 'Z') || ('a' <= c <= 'z') || ('0' <= c <= '9') || c == '-' || c == '_'
}

/// `base64::engine::general_purpose::URL_SAFE_NO_PAD.encode`. What it writes is named; of it, its
/// length is claimed, and that it holds only ASCII letters, digits, `-` and `_`.
#[verifier::external_body]
fn base64_url_encode(bytes: &Vec<u8>) -> (r: String)
    requires
        bytes@.len() <= usize::MAX / 4,
    ensures
        r@ == base64_url_of(bytes@),
        r@.len() == (bytes@.len() * 4 + 2) / 3,
        forall|i: int| 0 <= i < r@.len() ==> is_url_char(#[trigger] r@[i]),
{
    base64::engine::general_purpose::URL_SAFE_NO_PAD.encode(bytes)
}

/// `rand::rngs::OsRng.fill_bytes` on so many bytes. Which bytes come back is chance.
#[verifier::external_body]
fn random_bytes(count: usize) -> (r: Vec<u8>)
    ensures
        r@.len() == count,
{
    let mut bytes = vec![0u8; count];
    rand::rngs::OsRng.fill_bytes(&mut bytes);
    bytes
}

/// The token that opens the pages, and whether it is new.
#[derive(Debug, PartialEq, Eq)]
pub struct AdminToken {
    pub token: String,
    pub generated: bool,
}

/// Whether a token is the one that opens the pages: the one that is set, trimmed; where that is
/// blank, a new one that trimming does not change.
pub open spec fn opens_pages(token: AdminToken, configured: Option<Seq<char>>) -> bool {
    match configured {
        Some(text) if !is_blank(text) => !token.generated && token.token@ == trim_of(text),
        _ => {
            &&& token.generated
            &&& token.token@.len() == 43
            &&& forall|i: int| 0 <= i < 43 ==> is_url_char(#[trigger] token.token@[i])
            &&& exists|bytes: Seq<u8>|
                bytes.len() == 32 && token.token@ == #[trigger] base64_url_of(bytes)
        },
    }
}

/// The token that opens the pages: the one that is set, unless it is blank.
pub fn admin_token(configured: Option<&str>) -> (r: AdminToken)
    ensures
        opens_pages(
            r,
            match configured {
                Some(text) => Some(text@),
                None => None,
            },
        ),
{
    if let Some(text) = configured {
        if !blank(text) {
            return AdminToken { token: trim(text), generated: false };
        }
    }
    let bytes = random_bytes(32);
    let token = base64_url_encode(&bytes);
    assert(token@ == base64_url_of(bytes@));
    AdminToken { token, generated: true }
}

/// A token that opens the pages, once it is set, is the one that opens them from then on: it comes
/// back unchanged, and no new one is made.
pub proof fn law_token_is_found_again(
    token: AdminToken,
    configured: Option<Seq<char>>,
    later: AdminToken,
)
    requires
        opens_pages(token, configured),
        opens_pages(later, Some(token.token@)),
    ensures
        later.token@ == token.token@,
        !later.generated,
{
    if token.generated {
        let text = token.token@;
        assert(is_url_char(text[0]) && is_url_char(text[42]));
        assert(trim_start_of(text) == text);
        assert(trim_end_of(text) == text);
    } else {
        law_trimmed_once(configured.unwrap());
    }
}

/// A prompt that can be edited.
#[derive(Debug, PartialEq, Eq)]
pub struct PromptFileSummary {
    pub id: String,
    pub name: String,
    pub category: &'static str,
}

/// What a page shows of a prompt.
pub struct PromptView {
    pub id: Seq<char>,
    pub name: Seq<char>,
    pub category: Seq<char>,
}

impl View for PromptFileSummary {
    type V = PromptView;

    open spec fn view(&self) -> PromptView {
        PromptView { id: self.id@, name: self.name@, category: self.category@ }
    }
}

/// What a page shows of prompts.
pub open spec fn prompts_view(prompts: Seq<PromptFileSummary>) -> Seq<PromptView> {
    Seq::new(prompts.len(), |i: int| prompts[i]@)
}

/// The names of the prompts that the program itself needs.
pub open spec fn internal_prompts() -> Seq<Seq<char>> {
    Seq::empty().push("image_description"@).push("web_search_agent"@).push("scheduled_task"@).push(
        "scheduled_task_recovery"@,
    ).push("wait_for_reply_timeout"@)
}

/// The names of the prompts that every conversation needs.
pub open spec fn core_prompts() -> Seq<Seq<char>> {
    Seq::empty().push("system"@).push("character"@).push("instruction"@).push("filter"@)
}

fn internal_prompt_names() -> (r: Vec<String>)
    ensures
        texts(r@) == internal_prompts(),
{
    let mut r: Vec<String> = Vec::new();
    r.push("image_description".to_owned());
    r.push("web_search_agent".to_owned());
    r.push("scheduled_task".to_owned());
    r.push("scheduled_task_recovery".to_owned());
    r.push("wait_for_reply_timeout".to_owned());
    assert(texts(r@) =~= internal_prompts());
    r
}

fn core_prompt_names() -> (r: Vec<String>)
    ensures
        texts(r@) == core_prompts(),
{
    let mut r: Vec<String> = Vec::new();
    r.push("system".to_owned());
    r.push("character".to_owned());
    r.push("instruction".to_owned());
    r.push("filter".to_owned());
    assert(texts(r@) =~= core_prompts());
    r
}

/// A prompt of a category, with what its number begins with.
pub open spec fn prompt_of(prefix: Seq<char>, name: Seq<char>, category: Seq<char>) -> PromptView {
    PromptView { id: prefix + name, name: name + ".md"@, category }
}

/// The prompts of a category.
pub open spec fn prompts_of(prefix: Seq<char>, names: Seq<Seq<char>>, category: Seq<char>) -> Seq<
    PromptView,
> {
    Seq::new(names.len(), |i: int| prompt_of(prefix, names[i], category))
}

fn push_prompts(
    prompts: &mut Vec<PromptFileSummary>,
    prefix: &str,
    names: &Vec<String>,
    category: &'static str,
)
    ensures
        prompts_view(final(prompts)@) == prompts_view(old(prompts)@) + prompts_of(
            prefix@,
            texts(names@),
            category@,
        ),
{
    let ghost before = prompts_view(prompts@);
    let ghost added = prompts_of(prefix@, texts(names@), category@);
    let mut i: usize = 0;
    assert(before + added.take(0) =~= before);
    while i < names.len()
        invariant
            i <= names@.len(),
            added == prompts_of(prefix@, texts(names@), category@),
            prompts_view(prompts@) == before + added.take(i as int),
        decreases names@.len() - i,
    {
        let ghost shown = prompts_view(prompts@);
        let mut id = prefix.to_owned();
        id.push_str(&names[i]);
        let mut name = names[i].clone();
        name.push_str(".md");
        prompts.push(PromptFileSummary { id, name, category });
        assert(prompts_view(prompts@) =~= shown.push(added[i as int]));
        assert(before + added.take(i + 1) =~= (before + added.take(i as int)).push(
            added[i as int],
        ));
        i += 1;
    }
    assert(added.take(i as int) =~= added);
}

/// The prompts that can be edited: those of every conversation, those of the program, and those of
/// the actions in order.
pub fn list_prompt_files(action_names: Vec<String>) -> (r: Vec<PromptFileSummary>)
    ensures
        prompts_view(r@) =~= prompts_of(Seq::empty(), core_prompts(), "core"@) + prompts_of(
            "internal:"@,
            internal_prompts(),
            "internal"@,
        ) + prompts_of("action:"@, texts_in_order(texts(action_names@)), "action"@),
{
    let mut prompts: Vec<PromptFileSummary> = Vec::new();
    assert(prompts_view(prompts@) =~= Seq::empty());
    let none = String::new();
    assert(none@ =~= Seq::<char>::empty());
    push_prompts(&mut prompts, &none, &core_prompt_names(), "core");
    push_prompts(&mut prompts, "internal:", &internal_prompt_names(), "internal");
    push_prompts(&mut prompts, "action:", &sort_texts(action_names), "action");
    prompts
}

/// The name of the action that a file holds the prompt of.
pub open spec fn action_of_file(file_name: Seq<char>) -> Option<Seq<char>> {
    match crate::message_enricher::ending_of(file_name) {
        Some(ending) => if ending == "md"@ {
            match last_dot(file_name) {
                Some(i) => Some(file_name.take(i)),
                None => None,
            }
        } else {
            None
        },
        None => None,
    }
}

/// The name of the action that a file of the directory of actions holds the prompt of.
pub fn action_name_of_file(file_name: &str) -> (r: Option<String>)
    ensures
        option_text(r) == action_of_file(file_name@),
{
    match file_ending(file_name) {
        Some(ending) => {
            if !same_text(&ending, "md") {
                return None;
            }
            let chars = chars_of(file_name);
            match crate::message_enricher::find_last_dot(&chars) {
                Some(i) => {
                    let name = text_between(&chars, 0, i);
                    assert(name@ =~= file_name@.take(i as int));
                    Some(name)
                },
                None => None,
            }
        },
        None => None,
    }
}

/// Where a prompt lies in the directory of prompts.
#[derive(Debug, PartialEq, Eq)]
pub struct PromptPath {
    /// The directory under that of prompts, where it does not lie in that itself.
    pub directory: Option<&'static str>,
    pub file_name: String,
}

/// Why a prompt cannot be found.
#[derive(Debug, Clone, Copy, PartialEq, Eq, Structural)]
pub enum PromptError {
    UnknownInternal,
    Unknown,
    BadActionName,
}

/// Where the prompt with a number lies: its directory and the name of its file without the ending.
pub open spec fn prompt_place(id: Seq<char>) -> Result<(Option<Seq<char>>, Seq<char>), PromptError> {
    if core_prompts().contains(id) {
        Ok((None, id))
    } else if crate::text::begins_with(id, "internal:"@) {
        let name = trim_prefix_of(id, "internal:"@);
        if internal_prompts().contains(name) {
            Ok((Some("internal"@), name))
        } else {
            Err(PromptError::UnknownInternal)
        }
    } else {
        match without_prefix(id, "action:"@) {
            Some(name) => if name.len() == 0 {
                Err(PromptError::Unknown)
            } else if !is_plain_name(name, true) {
                Err(PromptError::BadActionName)
            } else {
                Ok((Some("actions"@), name))
            },
            None => Err(PromptError::Unknown),
        }
    }
}

/// Where the prompt with a number lies.
pub fn resolve_prompt_path(prompt_id: &str) -> (r: Result<PromptPath, PromptError>)
    ensures
        match prompt_place(prompt_id@) {
            Ok((directory, name)) => r is Ok && (match r->Ok_0.directory {
                Some(d) => directory == Some(d@),
                None => directory is None,
            }) && r->Ok_0.file_name@ == name + ".md"@,
            Err(e) => r == Err::<PromptPath, PromptError>(e),
        },
{
    let core = core_prompt_names();
    let internal = internal_prompt_names();
    proof {
        lemma_listed(core@, prompt_id@);
    }
    if is_listed(&core, prompt_id) {
        let mut file_name = prompt_id.to_owned();
        file_name.push_str(".md");
        return Ok(PromptPath { directory: None, file_name });
    }
    if starts_with(prompt_id, "internal:") {
        proof {
            reveal_strlit("internal:");
        }
        let name = trim_prefix(prompt_id, "internal:");
        proof {
            lemma_listed(internal@, name@);
        }
        if !is_listed(&internal, &name) {
            return Err(PromptError::UnknownInternal);
        }
        let mut file_name = name;
        file_name.push_str(".md");
        return Ok(PromptPath { directory: Some("internal"), file_name });
    }
    match strip_prefix(prompt_id, "action:") {
        Some(name) => {
            if name.is_empty() {
                return Err(PromptError::Unknown);
            }
            if !plain_name(&name, true) {
                return Err(PromptError::BadActionName);
            }
            let mut file_name = name;
            file_name.push_str(".md");
            Ok(PromptPath { directory: Some("actions"), file_name })
        },
        None => Err(PromptError::Unknown),
    }
}

/// No number of a prompt leads out of the directory of prompts: the name of its file holds no
/// slash, no backslash and no dot but the one before its ending.
pub proof fn law_prompts_stay_in_their_directory(id: Seq<char>, c: char)
    requires
        c == '/' || c == '\\' || c == '.',
    ensures
        prompt_place(id) matches Ok((_, name)) ==> !name.contains(c),
{
    reveal_strlit("system");
    reveal_strlit("character");
    reveal_strlit("instruction");
    reveal_strlit("filter");
    reveal_strlit("image_description");
    reveal_strlit("web_search_agent");
    reveal_strlit("scheduled_task");
    reveal_strlit("scheduled_task_recovery");
    reveal_strlit("wait_for_reply_timeout");
    if prompt_place(id) is Ok {
        let name = prompt_place(id)->Ok_0.1;
        if core_prompts().contains(id) {
            let i = core_prompts().index_of(id);
            assert(name == core_prompts()[i]);
        } else if crate::text::begins_with(id, "internal:"@) {
            let i = internal_prompts().index_of(name);
            assert(name == internal_prompts()[i]);
        }
    }
}

/// Whether a prompt may be saved with a content.
pub fn prompt_can_be_saved(content: &str) -> (r: bool)
    ensures
        r == !is_blank(content@),
{
    !blank(content)
}

/// Where the configuration lies.
pub fn config_path() -> (r: &'static str)
    ensures
        r@ == "config/meta.toml"@,
{
    "config/meta.toml"
}

} // verus!
