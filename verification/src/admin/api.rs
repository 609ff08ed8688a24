//! What the pages ask for, and how they are answered.

use vstd::prelude::*;

use subtle::ConstantTimeEq;

use crate::admin::config_store::{filled, AdminProviderConfig};
use crate::ai_provider::chat_wire::{text_or_null, text_or_null_json};
use crate::config::ProviderConfig;
use crate::json::{
    int_view, items_view, json_parsed, json_written, lemma_field_at, object2, option_json,
    option_text, parse_json, write_json, Fields, Items, Json, JsonView,
};
use crate::local_time::LocalTime;
use crate::memory::group_memory::{
    MAX_RETENTION_DAYS, SECONDS_PER_DAY, content_fault, memory_error_text, title_fault,
    validate_content, validate_title,
};
use crate::repository::character_memory::CharacterMemoryRecord;
use crate::repository::db_manager::{
    AdminConversationSummary, AdminDatabaseStats, ChatMessage, ConversationRecord,
};
use crate::repository::user_memory::OwnedUserMemoryRecord;
use crate::runtime_state::{CachedGroupMembers, RuntimeGroupInfo, RuntimeGroupMember};
use crate::scheduler::model::ScheduledTask;
use crate::scheduler::service::{kind_of, parse_kind};
use crate::text::{
    blank, find_from, is_blank, is_lowered, is_plain_name, lemma_find_first,
    lemma_signed_decimal_reads, lowered_is, occurs_at, parse_i64, parse_i64_of, plain_name,
    same_text, signed_decimal, signed_decimal_of, split_once, split_once_of, strip_prefix, trim,
    trim_end_char, trim_end_char_of, trim_of, trim_prefix, trim_prefix_of, without_prefix,
};
use crate::transport::{Conversation, MessageTarget};

verus! {

/// How long the members of a group are known without asking again, in milliseconds.
pub const GROUP_MEMBER_CACHE_TTL: u64 = 600_000;

/// An answer that says what went wrong, and the status that goes with it.
#[derive(Debug, PartialEq, Eq)]
pub struct ApiError {
    pub status: u16,
    pub message: String,
}

impl ApiError {
    /// An answer with a status.
    pub fn new(status: u16, message: String) -> (r: ApiError)
        ensures
            r == (ApiError { status, message }),
    {
        ApiError { status, message }
    }

    /// The request makes no sense.
    pub fn bad_request(message: &str) -> (r: ApiError)
        ensures
            r.status == 400,
            r.message@ == message@,
    {
        ApiError::new(400, message.to_owned())
    }

    /// What the request speaks of is not there.
    pub fn not_found(message: &str) -> (r: ApiError)
        ensures
            r.status == 404,
            r.message@ == message@,
    {
        ApiError::new(404, message.to_owned())
    }
}

/// Whether an answer has a status and says something.
pub open spec fn answers(error: ApiError, status: u16, message: Seq<char>) -> bool {
    error.status == status && error.message@ == message
}

/// `subtle`'s `ConstantTimeEq::ct_eq` on the bytes of two texts: whether they are the same. That
/// the time it takes does not depend on what the texts hold is not stated.
#[verifier::external_body]
fn constant_time_equals(actual: &str, expected: &str) -> (r: bool)
    ensures
        r == (actual@ == expected@),
{
    actual.as_bytes().ct_eq(expected.as_bytes()).into()
}

/// Whether a request may use the pages: its header holds the token behind the word `Bearer`.
pub open spec fn may_enter(authorization: Option<Seq<char>>, token: Seq<char>) -> bool {
    match authorization {
        Some(header) => without_prefix(header, "Bearer "@) == Some(token),
        None => false,
    }
}

/// Whether a request may use the pages.
pub fn is_authorized(authorization: Option<&str>, token: &str) -> (r: bool)
    ensures
        r == may_enter(
            match authorization {
                Some(header) => Some(header@),
                None => None,
            },
            token@,
        ),
{
    match authorization {
        Some(header) => match strip_prefix(header, "Bearer ") {
            Some(given) => constant_time_equals(&given, token),
            None => false,
        },
        None => false,
    }
}

/// The answer to a request that may not use the pages.
pub fn unauthorized() -> (r: ApiError)
    ensures
        answers(r, 401, "管理 Token 无效"@),
{
    ApiError::new(401, "管理 Token 无效".to_owned())
}

/// Only the token itself opens the pages.
pub proof fn law_only_the_token_opens(given: Seq<char>, token: Seq<char>)
    ensures
        may_enter(Some("Bearer "@ + given), token) == (given == token),
        !may_enter(None, token),
{
    reveal_strlit("Bearer ");
    let header = "Bearer "@ + given;
    assert(header.take("Bearer "@.len() as int) =~= "Bearer "@);
    assert(header.skip("Bearer "@.len() as int) =~= given);
}

/// An integer, or nothing.
pub open spec fn int_or_null(n: Option<i64>) -> JsonView {
    match n {
        Some(n) => int_view(n as int),
        None => JsonView::Null,
    }
}

/// A number, or nothing.
pub open spec fn unsigned_or_null(n: Option<u64>) -> JsonView {
    match n {
        Some(n) => JsonView::Unsigned(n),
        None => JsonView::Null,
    }
}

/// Yes, no, or nothing.
pub open spec fn bool_or_null(b: Option<bool>) -> JsonView {
    match b {
        Some(b) => JsonView::Bool(b),
        None => JsonView::Null,
    }
}

fn show_int(n: Option<i64>) -> (r: Json)
    ensures
        r@ == int_or_null(n),
{
    match n {
        Some(n) => Json::integer(n),
        None => Json::Null,
    }
}

fn show_unsigned(n: Option<u64>) -> (r: Json)
    ensures
        r@ == unsigned_or_null(n),
{
    match n {
        Some(n) => Json::Unsigned(n),
        None => Json::Null,
    }
}

fn show_bool(b: Option<bool>) -> (r: Json)
    ensures
        r@ == bool_or_null(b),
{
    match b {
        Some(b) => Json::Bool(b),
        None => Json::Null,
    }
}

/// The difference of two numbers, held within the bounds of its type.
pub open spec fn bounded_difference(a: i64, b: i64) -> int {
    if a - b > i64::MAX {
        i64::MAX as int
    } else if a - b < i64::MIN {
        i64::MIN as int
    } else {
        a - b
    }
}

/// How long the program has been running.
pub fn uptime_seconds(now: i64, started_at: i64) -> (r: i64)
    ensures
        r == bounded_difference(now, started_at),
{
    let difference: i128 = now as i128 - started_at as i128;
    if difference > 9223372036854775807 {
        9223372036854775807
    } else if difference < -9223372036854775808 {
        -9223372036854775808
    } else {
        difference as i64
    }
}

/// When the day of a moment began, by its time of day.
pub fn day_start(now: i64, local: &LocalTime) -> (r: i64)
    requires
        local.valid(),
        now >= i64::MIN + 86_400,
    ensures
        r == now - (local.hour * 3600 + local.minute * 60 + local.second),
{
    now - (local.hour as i64 * 3600 + local.minute as i64 * 60 + local.second as i64)
}

/// What is known of the program and the platform.
#[derive(Debug, PartialEq, Eq)]
pub struct ProgramStatus {
    pub version: String,
    pub started_at: i64,
    pub bot_id: Option<String>,
    pub bot_name: Option<String>,
    pub onebot_online: Option<bool>,
    pub last_event_at: Option<i64>,
}

/// What a page shows of the program.
pub open spec fn status_of(status: ProgramStatus, stats: AdminDatabaseStats, now: i64) -> JsonView {
    JsonView::Object(
        Seq::empty().push(("version"@, JsonView::Text(status.version@))).push(
            ("started_at"@, int_view(status.started_at as int)),
        ).push(("uptime_seconds"@, int_view(bounded_difference(now, status.started_at)))).push(
            ("bot_id"@, text_or_null(option_text(status.bot_id))),
        ).push(("bot_name"@, text_or_null(option_text(status.bot_name)))).push(
            ("onebot_online"@, bool_or_null(status.onebot_online)),
        ).push(("last_event_at"@, int_or_null(status.last_event_at))).push(
            ("conversations"@, JsonView::Unsigned(stats.conversations)),
        ).push(("group_conversations"@, JsonView::Unsigned(stats.group_conversations))).push(
            ("direct_conversations"@, JsonView::Unsigned(stats.direct_conversations)),
        ).push(("messages_today"@, JsonView::Unsigned(stats.messages_today))).push(
            ("user_memories"@, JsonView::Unsigned(stats.user_memories)),
        ).push(("character_memories"@, JsonView::Unsigned(stats.character_memories))).push(
            ("scheduled_tasks"@, JsonView::Unsigned(stats.scheduled_tasks)),
        ),
    )
}

/// What a page shows of the program.
pub fn status_response(status: &ProgramStatus, stats: &AdminDatabaseStats, now: i64) -> (r: Json)
    ensures
        r@ == status_of(*status, *stats, now),
{
    let mut fields = Fields::new();
    fields.put_text("version", &status.version);
    fields.put("started_at", Json::integer(status.started_at));
    fields.put("uptime_seconds", Json::integer(uptime_seconds(now, status.started_at)));
    fields.put("bot_id", text_or_null_json(&status.bot_id));
    fields.put("bot_name", text_or_null_json(&status.bot_name));
    fields.put("onebot_online", show_bool(status.onebot_online));
    fields.put("last_event_at", show_int(status.last_event_at));
    fields.put("conversations", Json::Unsigned(stats.conversations));
    fields.put("group_conversations", Json::Unsigned(stats.group_conversations));
    fields.put("direct_conversations", Json::Unsigned(stats.direct_conversations));
    fields.put("messages_today", Json::Unsigned(stats.messages_today));
    fields.put("user_memories", Json::Unsigned(stats.user_memories));
    fields.put("character_memories", Json::Unsigned(stats.character_memories));
    fields.put("scheduled_tasks", Json::Unsigned(stats.scheduled_tasks));
    fields.done()
}

/// Whether saving the configuration restarts the program, and the status of the answer.
pub fn save_outcome(restart: Option<bool>) -> (r: (u16, bool))
    ensures
        r.1 == (restart != Some(false)),
        r.0 == (if r.1 {
            202u16
        } else {
            200u16
        }),
{
    match restart {
        Some(false) => (200, false),
        _ => (202, true),
    }
}

/// The token for a test of the platform: a new one, or the one that is set.
pub fn onebot_test_token(given: &Option<String>, configured: &str) -> (r: String)
    ensures
        r@ == (match filled(option_text(*given)) {
            Some(t) => t,
            None => configured@,
        }),
{
    match given {
        Some(t) => {
            if t.is_empty() {
                configured.to_owned()
            } else {
                t.clone()
            }
        },
        None => configured.to_owned(),
    }
}

/// Where the platform tells who is logged in.
pub fn login_info_url(onebot_api: &str) -> (r: String)
    ensures
        r@ == trim_end_char_of(trim_of(onebot_api@), '/') + "/get_login_info"@,
{
    let mut r = trim_end_char(&trim(onebot_api), '/');
    r.push_str("/get_login_info");
    r
}

/// A number that an `i64` can hold.
pub open spec fn signed_in(v: JsonView) -> Option<i64> {
    match v {
        JsonView::Unsigned(n) => if n <= i64::MAX {
            Some(n as i64)
        } else {
            None
        },
        JsonView::Negative(n) => Some(n),
        _ => None,
    }
}

fn read_signed(v: &Json) -> (r: Option<i64>)
    ensures
        r == signed_in(v@),
{
    match v {
        Json::Unsigned(n) => {
            if *n <= 9223372036854775807 {
                Some(*n as i64)
            } else {
                None
            }
        },
        Json::Negative(n) => Some(*n),
        _ => None,
    }
}

/// Whether the platform says that a request succeeded.
pub open spec fn platform_succeeded(body: JsonView) -> bool {
    match body.field("retcode"@) {
        Some(code) => signed_in(code) == Some(0i64),
        None => false,
    }
}

/// The account in what the platform answers: an integer or a text.
pub open spec fn login_in(body: JsonView) -> Option<Seq<char>> {
    match body.field("data"@) {
        Some(data) => match data.field("user_id"@) {
            Some(id) => match signed_in(id) {
                Some(n) => Some(signed_decimal_of(n as int)),
                None => id.chars(),
            },
            None => None,
        },
        None => None,
    }
}

/// What a failed test of the platform says.
pub open spec fn onebot_failure(status: Seq<char>, body: JsonView) -> Seq<char> {
    "OneBot 测试失败：HTTP "@ + status + "，响应 "@ + json_written(body)
}

/// The account that the platform answers with, when it is tested.
pub fn onebot_test_result(success: bool, status: &str, body: &Json) -> (r: Result<String, ApiError>)
    ensures
        match r {
            Ok(id) => success && platform_succeeded(body@) && login_in(body@) == Some(id@),
            Err(e) => if success && platform_succeeded(body@) {
                login_in(body@) is None && answers(e, 502, "OneBot 响应缺少 data.user_id"@)
            } else {
                answers(e, 502, onebot_failure(status@, body@))
            },
        },
{
    let succeeded = match body.get("retcode") {
        Some(code) => match read_signed(code) {
            Some(n) => n == 0,
            None => false,
        },
        None => false,
    };
    if !success || !succeeded {
        let mut message = "OneBot 测试失败：HTTP ".to_owned();
        message.push_str(status);
        message.push_str("，响应 ");
        message.push_str(&write_json(body));
        return Err(ApiError::new(502, message));
    }
    if let Some(data) = body.get("data") {
        if let Some(id) = data.get("user_id") {
            if let Some(n) = read_signed(id) {
                return Ok(signed_decimal(n));
            }
            if let Some(t) = id.as_text() {
                return Ok(t.clone());
            }
        }
    }
    Err(ApiError::new(502, "OneBot 响应缺少 data.user_id".to_owned()))
}

/// The key that is stored under a name, among the providers from `i` on.
pub open spec fn first_key(saved: Seq<ProviderConfig>, name: Seq<char>, i: int) -> Option<Seq<char>>
    decreases saved.len() - i,
{
    if i < 0 || i >= saved.len() {
        None
    } else if saved[i].name@ == name {
        Some(saved[i].key@)
    } else {
        first_key(saved, name, i + 1)
    }
}

/// The key with which a provider is tried: a new one, or the one that is stored.
pub open spec fn trial_key(provider: AdminProviderConfig, saved: Seq<ProviderConfig>) -> Seq<char> {
    match filled(option_text(provider.key)) {
        Some(key) => key,
        None => {
            let name = match provider.original_name {
                Some(name) => name@,
                None => provider.name@,
            };
            match first_key(saved, name, 0) {
                Some(key) => key,
                None => Seq::empty(),
            }
        },
    }
}

/// The key with which a provider is tried.
pub fn resolve_provider_key(provider: &AdminProviderConfig, saved: &Vec<ProviderConfig>) -> (r:
    String)
    ensures
        r@ == trial_key(*provider, saved@),
{
    if let Some(key) = &provider.key {
        if !key.is_empty() {
            return key.clone();
        }
    }
    let name = match &provider.original_name {
        Some(name) => name.clone(),
        None => provider.name.clone(),
    };
    let mut i: usize = 0;
    while i < saved.len()
        invariant
            i <= saved@.len(),
            filled(option_text(provider.key)) is None,
            name@ == (match provider.original_name {
                Some(name) => name@,
                None => provider.name@,
            }),
            first_key(saved@, name@, 0) == first_key(saved@, name@, i as int),
        decreases saved@.len() - i,
    {
        if same_text(&saved[i].name, &name) {
            return saved[i].key.clone();
        }
        i += 1;
    }
    let none = String::new();
    assert(none@ =~= Seq::<char>::empty());
    none
}

/// Where a provider is asked, for want of an address of its own.
pub open spec fn usual_base(kind: Seq<char>) -> Seq<char> {
    if kind == "openrouter"@ {
        "https://openrouter.ai/api/v1"@
    } else if kind == "google_aistudio"@ {
        "https://generativelanguage.googleapis.com/v1beta"@
    } else {
        "https://api.openai.com/v1"@
    }
}

/// Whether a provider can be asked for its models.
pub fn has_model_list(kind: &str) -> (r: bool)
    ensures
        r == (kind@ == "openai_compatible"@ || kind@ == "openrouter"@ || kind@
            == "google_aistudio"@),
{
    same_text(kind, "openai_compatible") || same_text(kind, "openrouter") || same_text(
        kind,
        "google_aistudio",
    )
}

/// The answer for a provider that cannot be asked.
pub fn unknown_provider() -> (r: ApiError)
    ensures
        answers(r, 400, "不支持的 Provider 类型"@),
{
    ApiError::bad_request("不支持的 Provider 类型")
}

/// Where a provider lists its models.
pub fn models_url(kind: &str, base_url: &str) -> (r: String)
    ensures
        r@ == (if is_blank(base_url@) {
            usual_base(kind@)
        } else {
            trim_end_char_of(trim_of(base_url@), '/')
        }) + "/models"@,
{
    let mut r = if blank(base_url) {
        if same_text(kind, "openrouter") {
            "https://openrouter.ai/api/v1".to_owned()
        } else if same_text(kind, "google_aistudio") {
            "https://generativelanguage.googleapis.com/v1beta".to_owned()
        } else {
            "https://api.openai.com/v1".to_owned()
        }
    } else {
        trim_end_char(&trim(base_url), '/')
    };
    r.push_str("/models");
    r
}

/// A model that a provider offers.
#[derive(Debug, PartialEq, Eq)]
pub struct ProviderModelItem {
    pub id: String,
    pub name: String,
    /// Whether it takes images, where the provider tells.
    pub vision: Option<bool>,
}

/// What a page shows of a model.
pub struct ModelItemView {
    pub id: Seq<char>,
    pub name: Seq<char>,
    pub vision: Option<bool>,
}

impl View for ProviderModelItem {
    type V = ModelItemView;

    open spec fn view(&self) -> ModelItemView {
        ModelItemView { id: self.id@, name: self.name@, vision: self.vision }
    }
}

/// What a page shows of models.
pub open spec fn model_items_view(items: Seq<ProviderModelItem>) -> Seq<ModelItemView> {
    Seq::new(items.len(), |i: int| items[i]@)
}

/// A value behind two fields.
pub open spec fn nested(v: JsonView, outer: Seq<char>, inner: Seq<char>) -> Option<JsonView> {
    match v.field(outer) {
        Some(o) => o.field(inner),
        None => None,
    }
}

/// Yes or no, where a value says so.
pub open spec fn yes_or_no(v: Option<JsonView>) -> Option<bool> {
    match v {
        Some(JsonView::Bool(b)) => Some(b),
        _ => None,
    }
}

/// Whether a list of kinds of input names images.
pub open spec fn names_images(items: Seq<JsonView>) -> bool {
    exists|i: int| 0 <= i < items.len() && is_image_word(#[trigger] items[i])
}

/// Whether a value is the word for images.
pub open spec fn is_image_word(v: JsonView) -> bool {
    match v.chars() {
        Some(t) => is_lowered(t, "image"@),
        None => false,
    }
}

/// Whether a list of kinds of input names images, where there is one.
pub open spec fn images_in(v: Option<JsonView>) -> Option<bool> {
    match v {
        Some(JsonView::Array(items)) => Some(names_images(items)),
        _ => None,
    }
}

/// The first answer that is there.
pub open spec fn first_answer(a: Option<bool>, b: Option<bool>) -> Option<bool> {
    match a {
        Some(x) => Some(x),
        None => b,
    }
}

/// Whether a model takes images, where its description tells: it says so, or lists the kinds of
/// input that it takes.
pub open spec fn vision_in(model: JsonView) -> Option<bool> {
    first_answer(
        yes_or_no(nested(model, "capabilities"@, "vision"@)),
        first_answer(
            yes_or_no(model.field("vision"@)),
            first_answer(
                images_in(nested(model, "architecture"@, "input_modalities"@)),
                first_answer(
                    images_in(model.field("input_modalities"@)),
                    first_answer(
                        images_in(model.field("modalities"@)),
                        images_in(nested(model, "capabilities"@, "input_modalities"@)),
                    ),
                ),
            ),
        ),
    )
}

fn get_nested<'a>(v: &'a Json, outer: &str, inner: &str) -> (r: Option<&'a Json>)
    ensures
        (match r {
            Some(j) => Some(j@),
            None => None,
        }) == nested(v@, outer@, inner@),
{
    match v.get(outer) {
        Some(o) => o.get(inner),
        None => None,
    }
}

fn read_yes_or_no(v: Option<&Json>) -> (r: Option<bool>)
    ensures
        r == yes_or_no(
            match v {
                Some(j) => Some(j@),
                None => None,
            },
        ),
{
    match v {
        Some(j) => match j {
            Json::Bool(b) => Some(*b),
            _ => None,
        },
        None => None,
    }
}

fn read_images(v: Option<&Json>) -> (r: Option<bool>)
    ensures
        r == images_in(
            match v {
                Some(j) => Some(j@),
                None => None,
            },
        ),
{
    match v {
        Some(j) => match j.as_array() {
            Some(items) => {
                let ghost all = items_view(items@);
                assert(j@ == JsonView::Array(all));
                let mut i: usize = 0;
                while i < items.len()
                    invariant
                        i <= items@.len(),
                        all == items_view(items@),
                        j@ == JsonView::Array(all),
                        v == Some(j),
                        forall|k: int| 0 <= k < i ==> !is_image_word(#[trigger] all[k]),
                    decreases items@.len() - i,
                {
                    assert(all[i as int] == items@[i as int]@);
                    if let Some(t) = items[i].as_text() {
                        if lowered_is(t, "image") {
                            assert(is_image_word(all[i as int]));
                            return Some(true);
                        }
                    }
                    i += 1;
                }
                Some(false)
            },
            None => None,
        },
        None => None,
    }
}

/// Whether a model takes images, where its description tells.
pub fn infer_model_vision(model: &Json) -> (r: Option<bool>)
    ensures
        r == vision_in(model@),
{
    if let Some(b) = read_yes_or_no(get_nested(model, "capabilities", "vision")) {
        return Some(b);
    }
    if let Some(b) = read_yes_or_no(model.get("vision")) {
        return Some(b);
    }
    if let Some(b) = read_images(get_nested(model, "architecture", "input_modalities")) {
        return Some(b);
    }
    if let Some(b) = read_images(model.get("input_modalities")) {
        return Some(b);
    }
    if let Some(b) = read_images(model.get("modalities")) {
        return Some(b);
    }
    read_images(get_nested(model, "capabilities", "input_modalities"))
}

/// The first value that is there.
pub open spec fn first_value(a: Option<JsonView>, b: Option<JsonView>) -> Option<JsonView> {
    match a {
        Some(x) => Some(x),
        None => b,
    }
}

/// The text of a value that is there.
pub open spec fn chars_in(v: Option<JsonView>) -> Option<Seq<char>> {
    match v {
        Some(x) => x.chars(),
        None => None,
    }
}

/// A model as a provider describes it; one without a name is passed over.
pub open spec fn model_item(model: JsonView) -> Option<ModelItemView> {
    match chars_in(first_value(model.field("id"@), model.field("name"@))) {
        Some(raw) => {
            let id = trim_prefix_of(raw, "models/"@);
            let shown = first_value(
                model.field("displayName"@),
                first_value(model.field("display_name"@), model.field("name"@)),
            );
            let name = match chars_in(shown) {
                Some(name) => name,
                None => id,
            };
            Some(
                ModelItemView {
                    id,
                    name: trim_prefix_of(name, "models/"@),
                    vision: vision_in(model),
                },
            )
        },
        None => None,
    }
}

/// The models of a list, in order.
pub open spec fn model_items(models: Seq<JsonView>) -> Seq<ModelItemView>
    decreases models.len(),
{
    if models.len() == 0 {
        Seq::empty()
    } else {
        let rest = model_items(models.drop_last());
        match model_item(models.last()) {
            Some(item) => rest.push(item),
            None => rest,
        }
    }
}

fn read_model_item(model: &Json) -> (r: Option<ProviderModelItem>)
    ensures
        match r {
            Some(item) => model_item(model@) == Some(item@),
            None => model_item(model@) is None,
        },
{
    proof {
        reveal_strlit("models/");
    }
    let named = match model.get("id") {
        Some(v) => Some(v),
        None => model.get("name"),
    };
    let raw = match named {
        Some(v) => match v.as_text() {
            Some(t) => t,
            None => {
                return None;
            },
        },
        None => {
            return None;
        },
    };
    let id = trim_prefix(raw, "models/");
    let shown = match model.get("displayName") {
        Some(v) => Some(v),
        None => match model.get("display_name") {
            Some(v) => Some(v),
            None => model.get("name"),
        },
    };
    let name = match shown {
        Some(v) => match v.as_text() {
            Some(t) => trim_prefix(t, "models/"),
            None => trim_prefix(&id, "models/"),
        },
        None => trim_prefix(&id, "models/"),
    };
    Some(ProviderModelItem { id, name, vision: infer_model_vision(model) })
}

/// The models of a list, in order.
pub fn normalize_model_items(models: &Vec<Json>) -> (r: Vec<ProviderModelItem>)
    ensures
        model_items_view(r@) == model_items(items_view(models@)),
{
    let ghost all = items_view(models@);
    let mut items: Vec<ProviderModelItem> = Vec::new();
    let mut i: usize = 0;
    assert(model_items_view(items@) =~= Seq::empty());
    while i < models.len()
        invariant
            i <= models@.len(),
            all == items_view(models@),
            model_items_view(items@) == model_items(all.take(i as int)),
        decreases models@.len() - i,
    {
        let ghost before = model_items_view(items@);
        assert(all.take(i + 1).drop_last() =~= all.take(i as int));
        assert(all.take(i + 1).last() == models@[i as int]@);
        if let Some(item) = read_model_item(&models[i]) {
            items.push(item);
            assert(model_items_view(items@) =~= before.push(item@));
        }
        i += 1;
    }
    assert(all.take(i as int) =~= all);
    items
}

/// Why an answer of a provider is no list of models.
#[derive(Debug, Clone, Copy, PartialEq, Eq, Structural)]
pub enum ModelListError {
    NotJson,
    NoList,
}

impl ModelListError {
    /// What a page is told, for a provider that answers in the common form.
    pub fn answer(&self, google: bool) -> (r: ApiError)
        ensures
            answers(
                r,
                502,
                match (*self, google) {
                    (ModelListError::NotJson, false) => "解析模型列表失败"@,
                    (ModelListError::NoList, false) => "模型列表响应缺少 data 数组"@,
                    (ModelListError::NotJson, true) => "解析 Google 模型列表失败"@,
                    (ModelListError::NoList, true) => "Google 模型列表响应缺少 models 数组"@,
                },
            ),
    {
        let text = match (*self, google) {
            (ModelListError::NotJson, false) => "解析模型列表失败",
            (ModelListError::NoList, false) => "模型列表响应缺少 data 数组",
            (ModelListError::NotJson, true) => "解析 Google 模型列表失败",
            (ModelListError::NoList, true) => "Google 模型列表响应缺少 models 数组",
        };
        ApiError::new(502, text.to_owned())
    }
}

/// What a page is told, where a provider does not list its models.
pub fn model_list_refused(google: bool, status: &str, body: &str) -> (r: ApiError)
    ensures
        answers(
            r,
            502,
            (if google {
                "获取 Google 模型列表失败：HTTP "@
            } else {
                "获取模型列表失败：HTTP "@
            }) + status@ + "，响应 "@ + body@,
        ),
{
    let mut message = if google {
        "获取 Google 模型列表失败：HTTP ".to_owned()
    } else {
        "获取模型列表失败：HTTP ".to_owned()
    };
    message.push_str(status);
    message.push_str("，响应 ");
    message.push_str(body);
    ApiError::new(502, message)
}

/// The list of models in an answer in the common form.
pub open spec fn listed_models(answer: JsonView) -> Option<Seq<JsonView>> {
    match first_value(answer.field("data"@), answer.field("models"@)) {
        Some(v) => v.items(),
        None => None,
    }
}

/// The models in an answer in the common form, once it was parsed.
pub fn read_model_list(parsed: &Option<Json>) -> (r: Result<Vec<ProviderModelItem>, ModelListError>)
    ensures
        match option_json(*parsed) {
            Some(answer) => match listed_models(answer) {
                Some(models) => r is Ok && model_items_view(r->Ok_0@) == model_items(models),
                None => r == Err::<Vec<ProviderModelItem>, ModelListError>(ModelListError::NoList),
            },
            None => r == Err::<Vec<ProviderModelItem>, ModelListError>(ModelListError::NotJson),
        },
{
    match parsed {
        Some(answer) => {
            let found = match answer.get("data") {
                Some(v) => Some(v),
                None => answer.get("models"),
            };
            match found {
                Some(v) => match v.as_array() {
                    Some(models) => Ok(normalize_model_items(models)),
                    None => Err(ModelListError::NoList),
                },
                None => Err(ModelListError::NoList),
            }
        },
        None => Err(ModelListError::NotJson),
    }
}

/// The models in the text of an answer in the common form.
pub fn openai_style_models(body: &str) -> (r: Result<Vec<ProviderModelItem>, ModelListError>)
    ensures
        match json_parsed(body@) {
            Some(answer) => match listed_models(answer) {
                Some(models) => r is Ok && model_items_view(r->Ok_0@) == model_items(models),
                None => r == Err::<Vec<ProviderModelItem>, ModelListError>(ModelListError::NoList),
            },
            None => r == Err::<Vec<ProviderModelItem>, ModelListError>(ModelListError::NotJson),
        },
{
    read_model_list(&parse_json(body))
}

/// How many pages of models Google is asked for at most.
pub const MAX_MODEL_PAGES: usize = 20;

/// The models that Google has listed so far.
#[derive(Debug, PartialEq, Eq)]
pub struct GoogleModels {
    pub items: Vec<ProviderModelItem>,
    /// The page to ask for next, where it is not the first.
    pub page_token: Option<String>,
    pub pages: usize,
}

/// Whether another page is asked for, after one that names the next.
pub open spec fn asks_again(pages: int, next: Option<Seq<char>>) -> bool {
    next is Some && pages < MAX_MODEL_PAGES
}

impl GoogleModels {
    /// Before the first page.
    pub fn new() -> (r: GoogleModels)
        ensures
            r.items@.len() == 0,
            r.page_token is None,
            r.pages == 0,
    {
        GoogleModels { items: Vec::new(), page_token: None, pages: 0 }
    }

    /// Takes a page, once it was parsed, and tells whether another one is asked for.
    pub fn receive_page(&mut self, parsed: &Option<Json>) -> (r: Result<bool, ModelListError>)
        requires
            old(self).pages < MAX_MODEL_PAGES,
        ensures
            match option_json(*parsed) {
                Some(page) => match page.array_field("models"@) {
                    Some(models) => {
                        &&& r == Ok::<bool, ModelListError>(
                            asks_again(final(self).pages as int, page.text_field("nextPageToken"@)),
                        )
                        &&& model_items_view(final(self).items@) == model_items_view(
                            old(self).items@,
                        ) + model_items(models)
                        &&& option_text(final(self).page_token) == page.text_field(
                            "nextPageToken"@,
                        )
                        &&& final(self).pages == old(self).pages + 1
                    },
                    None => r == Err::<bool, ModelListError>(ModelListError::NoList)
                        && *final(self) == *old(self),
                },
                None => r == Err::<bool, ModelListError>(ModelListError::NotJson) && *final(self)
                    == *old(self),
            },
    {
        match parsed {
            Some(page) => match page.array_at("models") {
                Some(models) => {
                    let ghost before = model_items_view(self.items@);
                    let mut added = normalize_model_items(models);
                    let ghost new_items = added@;
                    self.items.append(&mut added);
                    assert(model_items_view(self.items@) =~= before + model_items_view(new_items));
                    self.page_token = page.text_at("nextPageToken");
                    self.pages = self.pages + 1;
                    Ok(self.page_token.is_some() && self.pages < MAX_MODEL_PAGES)
                },
                None => Err(ModelListError::NoList),
            },
            None => Err(ModelListError::NotJson),
        }
    }

    /// Takes the text of a page, and tells whether another one is asked for.
    pub fn receive(&mut self, body: &str) -> (r: Result<bool, ModelListError>)
        requires
            old(self).pages < MAX_MODEL_PAGES,
        ensures
            match json_parsed(body@) {
                Some(page) => match page.array_field("models"@) {
                    Some(models) => {
                        &&& r == Ok::<bool, ModelListError>(
                            asks_again(final(self).pages as int, page.text_field("nextPageToken"@)),
                        )
                        &&& model_items_view(final(self).items@) == model_items_view(
                            old(self).items@,
                        ) + model_items(models)
                        &&& option_text(final(self).page_token) == page.text_field(
                            "nextPageToken"@,
                        )
                        &&& final(self).pages == old(self).pages + 1
                    },
                    None => r == Err::<bool, ModelListError>(ModelListError::NoList)
                        && *final(self) == *old(self),
                },
                None => r == Err::<bool, ModelListError>(ModelListError::NotJson) && *final(self)
                    == *old(self),
            },
    {
        self.receive_page(&parse_json(body))
    }
}

/// Whether the number of an image is one that the program gives.
pub fn image_id_fits(image_id: &str) -> (r: bool)
    ensures
        r == is_plain_name(image_id@, false),
{
    plain_name(image_id, false)
}

/// The kind of conversations that a list is asked for, where it is not all of them.
pub fn wanted_kind(kind: Option<String>) -> (r: Option<String>)
    ensures
        option_text(r) == (if option_text(kind) == Some("all"@) {
            None
        } else {
            option_text(kind)
        }),
{
    match kind {
        Some(k) => {
            if same_text(&k, "all") {
                None
            } else {
                Some(k)
            }
        },
        None => None,
    }
}

/// How many conversations a list has at most.
pub open spec fn list_limit(limit: Option<u32>) -> u32 {
    match limit {
        Some(n) => if n < 1 {
            1
        } else if n > 100 {
            100
        } else {
            n
        },
        None => 30,
    }
}

/// How many conversations a list has at most.
pub fn conversation_limit(limit: Option<u32>) -> (r: u32)
    ensures
        r == list_limit(limit),
{
    match limit {
        Some(n) => {
            if n < 1 {
                1
            } else if n > 100 {
                100
            } else {
                n
            }
        },
        None => 30,
    }
}

/// Why a place in a list cannot be read.
#[derive(Debug, Clone, Copy, PartialEq, Eq, Structural)]
pub enum CursorError {
    NoColon,
    BadNumber,
}

/// The place in a list that a text stands for: when the last conversation had its latest message,
/// and its number.
pub open spec fn cursor_of(text: Seq<char>) -> Result<(i64, i64), CursorError> {
    match split_once_of(text, ":"@) {
        Some((timestamp, id)) => match (parse_i64_of(timestamp), parse_i64_of(id)) {
            (Some(t), Some(i)) => Ok((t, i)),
            _ => Err(CursorError::BadNumber),
        },
        None => Err(CursorError::NoColon),
    }
}

/// The text that stands for a place in a list.
pub open spec fn cursor_text(timestamp: i64, id: i64) -> Seq<char> {
    signed_decimal_of(timestamp as int) + ":"@ + signed_decimal_of(id as int)
}

/// Reads the place in a list that a text stands for.
pub fn parse_cursor(cursor: &str) -> (r: Result<(i64, i64), CursorError>)
    ensures
        r == cursor_of(cursor@),
{
    match split_once(cursor, ":") {
        Some(parts) => match (parse_i64(&parts.0), parse_i64(&parts.1)) {
            (Some(t), Some(i)) => Ok((t, i)),
            _ => Err(CursorError::BadNumber),
        },
        None => Err(CursorError::NoColon),
    }
}

/// Where a list goes on, if it may: it is as long as it can be.
pub fn next_cursor(rows: &Vec<AdminConversationSummary>, limit: Option<u32>) -> (r: Option<String>)
    ensures
        option_text(r) == (if rows@.len() == list_limit(limit) {
            Some(
                cursor_text(
                    rows@.last().conversation.last_message_at,
                    rows@.last().conversation.id,
                ),
            )
        } else {
            None
        }),
{
    if rows.len() != conversation_limit(limit) as usize {
        return None;
    }
    let last = &rows[rows.len() - 1].conversation;
    let mut r = signed_decimal(last.last_message_at);
    r.push_str(":");
    r.push_str(&signed_decimal(last.id));
    Some(r)
}

/// The text that stands for a place in a list is read as that place.
pub proof fn law_lists_go_on_where_they_stopped(timestamp: i64, id: i64)
    ensures
        cursor_of(cursor_text(timestamp, id)) == Ok::<(i64, i64), CursorError>((timestamp, id)),
{
    reveal_strlit(":");
    let front = signed_decimal_of(timestamp as int);
    let back = signed_decimal_of(id as int);
    let text = cursor_text(timestamp, id);
    lemma_signed_decimal_reads(timestamp);
    lemma_signed_decimal_reads(id);
    let at = front.len() as int;
    assert(text.subrange(at, at + 1) =~= ":"@);
    assert(occurs_at(text, ":"@, at));
    lemma_find_first(text, ":"@, 0);
    let found = find_from(text, ":"@, 0);
    assert(found is Some);
    let i = found.unwrap();
    if i < at {
        assert(text.subrange(i, i + 1)[0] == text[i]);
        assert(text[i] == front[i]);
        assert(front.contains(':'));
    }
    assert(i == at);
    assert(text.take(at) =~= front);
    assert(text.skip(at + 1) =~= back);
}

/// What a page shows of a conversation in a list.
pub open spec fn summary_of(row: AdminConversationSummary, group: Option<RuntimeGroupInfo>) -> JsonView {
    let conversation = row.conversation;
    let title = match group {
        Some(g) => g.name@,
        None => match conversation.title {
            Some(t) => t@,
            None => conversation.source_conversation_id@,
        },
    };
    JsonView::Object(
        Seq::empty().push(("id"@, int_view(conversation.id as int))).push(
            ("source_id"@, JsonView::Text(conversation.source_conversation_id@)),
        ).push(("kind"@, JsonView::Text(conversation.kind@))).push(("title"@, JsonView::Text(title))).push(
            (
                "member_count"@,
                match group {
                    Some(g) => JsonView::Unsigned(g.member_count),
                    None => JsonView::Null,
                },
            ),
        ).push(("latest_sender_name"@, text_or_null(option_text(row.latest_sender_name)))).push(
            ("latest_content"@, text_or_null(option_text(row.latest_content))),
        ).push(("latest_message_at"@, int_or_null(row.latest_message_at))).push(
            ("unread_count"@, JsonView::Unsigned(row.unread_count)),
        ),
    )
}

/// Whether something is known of the group that a conversation may be: only of a group.
pub open spec fn group_for(kind: Seq<char>, known: Option<RuntimeGroupInfo>) -> Option<
    RuntimeGroupInfo,
> {
    if kind == "group"@ {
        known
    } else {
        None
    }
}

/// What a page shows of a conversation in a list. `known` is what is known of a group with its
/// number.
pub fn conversation_summary(row: &AdminConversationSummary, known: Option<RuntimeGroupInfo>) -> (r:
    Json)
    ensures
        r@ == summary_of(*row, group_for(row.conversation.kind@, known)),
{
    let conversation = &row.conversation;
    let group = if same_text(&conversation.kind, "group") {
        known
    } else {
        None
    };
    let title = match &group {
        Some(g) => g.name.clone(),
        None => match &conversation.title {
            Some(t) => t.clone(),
            None => conversation.source_conversation_id.clone(),
        },
    };
    let member_count = match &group {
        Some(g) => Json::Unsigned(g.member_count),
        None => Json::Null,
    };
    let mut fields = Fields::new();
    fields.put("id", Json::integer(conversation.id));
    fields.put_text("source_id", &conversation.source_conversation_id);
    fields.put_text("kind", &conversation.kind);
    fields.put_text("title", &title);
    fields.put("member_count", member_count);
    fields.put("latest_sender_name", text_or_null_json(&row.latest_sender_name));
    fields.put("latest_content", text_or_null_json(&row.latest_content));
    fields.put("latest_message_at", show_int(row.latest_message_at));
    fields.put("unread_count", Json::Unsigned(row.unread_count));
    fields.done()
}

/// What a page shows of one conversation.
pub open spec fn detail_of(
    conversation: ConversationRecord,
    group: Option<RuntimeGroupInfo>,
) -> JsonView {
    JsonView::Object(
        Seq::empty().push(("id"@, int_view(conversation.id as int))).push(
            ("source"@, JsonView::Text(conversation.source@)),
        ).push(("source_id"@, JsonView::Text(conversation.source_conversation_id@))).push(
            ("kind"@, JsonView::Text(conversation.kind@)),
        ).push(
            (
                "title"@,
                match group {
                    Some(g) => JsonView::Text(g.name@),
                    None => text_or_null(option_text(conversation.title)),
                },
            ),
        ).push(
            (
                "member_count"@,
                match group {
                    Some(g) => JsonView::Unsigned(g.member_count),
                    None => JsonView::Null,
                },
            ),
        ).push(
            (
                "max_member_count"@,
                match group {
                    Some(g) => unsigned_or_null(g.max_member_count),
                    None => JsonView::Null,
                },
            ),
        ).push(("last_message_at"@, int_view(conversation.last_message_at as int))),
    )
}

/// What a page shows of one conversation. `known` is what is known of a group with its number.
pub fn conversation_detail(conversation: &ConversationRecord, known: Option<RuntimeGroupInfo>) -> (r:
    Json)
    ensures
        r@ == detail_of(*conversation, group_for(conversation.kind@, known)),
{
    let group = if same_text(&conversation.kind, "group") {
        known
    } else {
        None
    };
    let mut fields = Fields::new();
    fields.put("id", Json::integer(conversation.id));
    fields.put_text("source", &conversation.source);
    fields.put_text("source_id", &conversation.source_conversation_id);
    fields.put_text("kind", &conversation.kind);
    match &group {
        Some(g) => {
            fields.put_text("title", &g.name);
            fields.put("member_count", Json::Unsigned(g.member_count));
            fields.put("max_member_count", show_unsigned(g.max_member_count));
        },
        None => {
            fields.put("title", text_or_null_json(&conversation.title));
            fields.put("member_count", Json::Null);
            fields.put("max_member_count", Json::Null);
        },
    }
    fields.put("last_message_at", Json::integer(conversation.last_message_at));
    fields.done()
}

/// Checks that a list of messages is asked for in one direction only.
pub fn check_direction(before_id: Option<i64>, after_id: Option<i64>) -> (r: Result<(), ApiError>)
    ensures
        match r {
            Ok(()) => before_id is None || after_id is None,
            Err(e) => before_id is Some && after_id is Some && answers(
                e,
                400,
                "before_id 和 after_id 不能同时使用"@,
            ),
        },
{
    if before_id.is_some() && after_id.is_some() {
        return Err(ApiError::bad_request("before_id 和 after_id 不能同时使用"));
    }
    Ok(())
}

/// Where a list of messages goes on into the past.
pub fn next_before_id(messages: &Vec<ChatMessage>, after_id: Option<i64>) -> (r: Option<i64>)
    ensures
        r == (if after_id is None && messages@.len() > 0 {
            Some(messages@[0].id)
        } else {
            None
        }),
{
    if after_id.is_none() && messages.len() > 0 {
        Some(messages[0].id)
    } else {
        None
    }
}

/// Whether the assistant sent a message.
pub open spec fn sent_by_bot(message: ChatMessage, bot_id: Option<Seq<char>>) -> bool {
    bot_id == Some(message.sender_id@)
}

/// Who sent a message, as a page shows it: the assistant by its name, where it has one.
pub open spec fn shown_sender(
    message: ChatMessage,
    bot_id: Option<Seq<char>>,
    bot_name: Option<Seq<char>>,
) -> Seq<char> {
    if sent_by_bot(message, bot_id) {
        match bot_name {
            Some(name) => if is_blank(name) {
                message.sender_display_name@
            } else {
                name
            },
            None => message.sender_display_name@,
        }
    } else {
        message.sender_display_name@
    }
}

/// What a page shows of a message, given its pieces.
pub open spec fn message_item_of(
    message: ChatMessage,
    parts: Option<JsonView>,
    bot_id: Option<Seq<char>>,
    bot_name: Option<Seq<char>>,
) -> JsonView {
    JsonView::Object(
        Seq::empty().push(("id"@, int_view(message.id as int))).push(
            ("sender_id"@, JsonView::Text(message.sender_id@)),
        ).push(("sender_name"@, JsonView::Text(shown_sender(message, bot_id, bot_name)))).push(
            (
                "content"@,
                JsonView::Text(
                    match message.content_text {
                        Some(t) => t@,
                        None => Seq::empty(),
                    },
                ),
            ),
        ).push(
            (
                "parts"@,
                match parts {
                    Some(v) => v,
                    None => JsonView::Array(Seq::empty()),
                },
            ),
        ).push(("is_bot"@, JsonView::Bool(sent_by_bot(message, bot_id)))).push(
            ("is_read"@, JsonView::Bool(message.is_read)),
        ).push(("timestamp"@, int_view(message.event_timestamp as int))),
    )
}

/// What a page shows of a message, given its pieces once they were parsed.
pub fn show_message(
    message: &ChatMessage,
    parts: Option<Json>,
    bot_id: &Option<String>,
    bot_name: &Option<String>,
) -> (r: Json)
    ensures
        r@ == message_item_of(
            *message,
            option_json(parts),
            option_text(*bot_id),
            option_text(*bot_name),
        ),
{
    let is_bot = match bot_id {
        Some(id) => same_text(id, &message.sender_id),
        None => false,
    };
    let mut sender_name = message.sender_display_name.clone();
    if is_bot {
        if let Some(name) = bot_name {
            if !blank(name) {
                sender_name = name.clone();
            }
        }
    }
    let content = match &message.content_text {
        Some(t) => t.clone(),
        None => {
            let none = String::new();
            assert(none@ =~= Seq::<char>::empty());
            none
        },
    };
    let shown_parts = match parts {
        Some(v) => v,
        None => Items::new().done(),
    };
    let mut fields = Fields::new();
    fields.put("id", Json::integer(message.id));
    fields.put_text("sender_id", &message.sender_id);
    fields.put_text("sender_name", &sender_name);
    fields.put_text("content", &content);
    fields.put("parts", shown_parts);
    fields.put("is_bot", Json::Bool(is_bot));
    fields.put("is_read", Json::Bool(message.is_read));
    fields.put("timestamp", Json::integer(message.event_timestamp));
    fields.done()
}

/// What a page shows of a message.
pub fn message_item(message: &ChatMessage, bot_id: &Option<String>, bot_name: &Option<String>) -> (r:
    Json)
    ensures
        r@ == message_item_of(
            *message,
            json_parsed(message.content_parts_json@),
            option_text(*bot_id),
            option_text(*bot_name),
        ),
{
    show_message(message, parse_json(&message.content_parts_json), bot_id, bot_name)
}

/// What a page shows of something that is remembered of a person.
pub open spec fn user_memory_item(memory: OwnedUserMemoryRecord) -> JsonView {
    object2("id"@, JsonView::Text(memory.memory_id@), "content"@, JsonView::Text(memory.content@))
}

/// What is remembered of a person, in order.
pub open spec fn memories_of(memories: Seq<OwnedUserMemoryRecord>, user_id: Seq<char>) -> Seq<
    JsonView,
>
    decreases memories.len(),
{
    if memories.len() == 0 {
        Seq::empty()
    } else {
        let rest = memories_of(memories.drop_last(), user_id);
        if memories.last().user_id@ == user_id {
            rest.push(user_memory_item(memories.last()))
        } else {
            rest
        }
    }
}

/// Whether a member stands among the first `n`.
pub open spec fn seen_before(members: Seq<RuntimeGroupMember>, user_id: Seq<char>, n: int) -> bool {
    exists|i: int| 0 <= i < n && (#[trigger] members[i]).user_id@ == user_id
}

/// What a page shows of a member: what is remembered of them stands at their first place in the
/// list.
pub open spec fn member_item(
    members: Seq<RuntimeGroupMember>,
    memories: Seq<OwnedUserMemoryRecord>,
    i: int,
) -> JsonView {
    let member = members[i];
    let shown = if seen_before(members, member.user_id@, i) {
        Seq::empty()
    } else {
        memories_of(memories, member.user_id@)
    };
    JsonView::Object(
        Seq::empty().push(("user_id"@, JsonView::Text(member.user_id@))).push(
            ("nickname"@, JsonView::Text(member.nickname@)),
        ).push(("card"@, JsonView::Text(member.card@))).push(
            ("role"@, JsonView::Text(member.role@)),
        ).push(("memories"@, JsonView::Array(shown))),
    )
}

/// What a page shows of members and of what is remembered of them.
pub open spec fn user_memories_of(
    members: Seq<RuntimeGroupMember>,
    memories: Seq<OwnedUserMemoryRecord>,
    stale: bool,
) -> JsonView {
    object2(
        "users"@,
        JsonView::Array(Seq::new(members.len(), |i: int| member_item(members, memories, i))),
        "stale"@,
        JsonView::Bool(stale),
    )
}

fn collect_memories(memories: &Vec<OwnedUserMemoryRecord>, user_id: &str) -> (r: Items)
    ensures
        r@ == memories_of(memories@, user_id@),
{
    let mut items = Items::new();
    let mut i: usize = 0;
    assert(memories@.take(0) =~= Seq::empty());
    while i < memories.len()
        invariant
            i <= memories@.len(),
            items@ == memories_of(memories@.take(i as int), user_id@),
        decreases memories@.len() - i,
    {
        assert(memories@.take(i + 1).drop_last() =~= memories@.take(i as int));
        if same_text(&memories[i].user_id, user_id) {
            let mut fields = Fields::new();
            fields.put_text("id", &memories[i].memory_id);
            fields.put_text("content", &memories[i].content);
            items.push(fields.done());
        }
        i += 1;
    }
    assert(memories@.take(i as int) =~= memories@);
    items
}

fn is_seen_before(members: &Vec<RuntimeGroupMember>, user_id: &str, n: usize) -> (r: bool)
    requires
        n <= members@.len(),
    ensures
        r == seen_before(members@, user_id@, n as int),
{
    let mut i: usize = 0;
    while i < n
        invariant
            i <= n <= members@.len(),
            forall|j: int| 0 <= j < i ==> (#[trigger] members@[j]).user_id@ != user_id@,
        decreases n - i,
    {
        if same_text(&members[i].user_id, user_id) {
            return true;
        }
        i += 1;
    }
    false
}

/// What a page shows of members and of what is remembered of them.
pub fn user_memories(
    members: &Vec<RuntimeGroupMember>,
    memories: &Vec<OwnedUserMemoryRecord>,
    stale: bool,
) -> (r: Json)
    ensures
        r@ == user_memories_of(members@, memories@, stale),
{
    let ghost all = Seq::new(members@.len(), |i: int| member_item(members@, memories@, i));
    let mut users = Items::new();
    let mut i: usize = 0;
    assert(all.take(0) =~= Seq::empty());
    while i < members.len()
        invariant
            i <= members@.len(),
            all == Seq::new(members@.len(), |i: int| member_item(members@, memories@, i)),
            users@ == all.take(i as int),
        decreases members@.len() - i,
    {
        let member = &members[i];
        let shown = if is_seen_before(members, &member.user_id, i) {
            Items::new()
        } else {
            collect_memories(memories, &member.user_id)
        };
        let mut fields = Fields::new();
        fields.put_text("user_id", &member.user_id);
        fields.put_text("nickname", &member.nickname);
        fields.put_text("card", &member.card);
        fields.put_text("role", &member.role);
        fields.put("memories", shown.done());
        users.push(fields.done());
        assert(all.take(i + 1) =~= all.take(i as int).push(all[i as int]));
        i += 1;
    }
    assert(all.take(i as int) =~= all);
    let mut answer = Fields::new();
    answer.put("users", users.done());
    answer.put("stale", Json::Bool(stale));
    answer.done()
}

/// In how many days something is forgotten; a day that has begun counts.
pub open spec fn remaining_days(expires_at: i64, now: i64) -> int {
    if expires_at <= now {
        0
    } else {
        (expires_at - now + SECONDS_PER_DAY - 1) / SECONDS_PER_DAY as int
    }
}

/// What a page shows of something that is remembered of a conversation.
pub open spec fn character_memory_of(memory: CharacterMemoryRecord, now: i64) -> JsonView {
    JsonView::Object(
        Seq::empty().push(("id"@, int_view(memory.id as int))).push(
            ("title"@, JsonView::Text(memory.title@)),
        ).push(("content"@, JsonView::Text(memory.content@))).push(
            ("expires_at"@, int_view(memory.expires_at as int)),
        ).push(("remaining_days"@, int_view(remaining_days(memory.expires_at, now)))).push(
            ("expiring"@, JsonView::Bool(memory.expires_at <= now)),
        ),
    )
}

/// What a page shows of something that is remembered of a conversation.
pub fn character_memory_item(memory: &CharacterMemoryRecord, now: i64) -> (r: Json)
    ensures
        r@ == character_memory_of(*memory, now),
{
    let days: i64 = if memory.expires_at <= now {
        0
    } else {
        ((memory.expires_at as i128 - now as i128 + 86399) / 86400) as i64
    };
    let mut fields = Fields::new();
    fields.put("id", Json::integer(memory.id));
    fields.put_text("title", &memory.title);
    fields.put_text("content", &memory.content);
    fields.put("expires_at", Json::integer(memory.expires_at));
    fields.put("remaining_days", Json::integer(days));
    fields.put("expiring", Json::Bool(memory.expires_at <= now));
    fields.done()
}

/// Something that is remembered of a conversation, as it is changed.
#[derive(Debug, PartialEq, Eq)]
pub struct CharacterMemoryChange {
    pub title: String,
    pub content: String,
    pub expires_at: i64,
}

/// Checks a change of something that is remembered of a conversation.
pub fn plan_character_memory_update(title: &str, content: &str, retention_days: u16, now: i64) -> (r:
    Result<CharacterMemoryChange, ApiError>)
    requires
        now <= i64::MAX - MAX_RETENTION_DAYS * SECONDS_PER_DAY,
    ensures
        match title_fault(trim_of(title@)) {
            Some(fault) => r is Err && answers(r->Err_0, 500, memory_error_text(fault)),
            None => match content_fault(trim_of(content@)) {
                Some(fault) => r is Err && answers(r->Err_0, 500, memory_error_text(fault)),
                None => if 1 <= retention_days && retention_days <= MAX_RETENTION_DAYS {
                    &&& r is Ok
                    &&& r->Ok_0.title@ == trim_of(title@)
                    &&& r->Ok_0.content@ == trim_of(content@)
                    &&& r->Ok_0.expires_at == now + retention_days * SECONDS_PER_DAY
                } else {
                    r is Err && answers(r->Err_0, 400, "角色记忆时间必须在 1 到 365 天之间"@)
                },
            },
        },
{
    let title = trim(title);
    let content = trim(content);
    if let Err(fault) = validate_title(&title) {
        return Err(ApiError::new(500, fault.message()));
    }
    if let Err(fault) = validate_content(&content) {
        return Err(ApiError::new(500, fault.message()));
    }
    if retention_days < 1 || retention_days > MAX_RETENTION_DAYS {
        return Err(ApiError::bad_request("角色记忆时间必须在 1 到 365 天之间"));
    }
    Ok(
        CharacterMemoryChange {
            title,
            content,
            expires_at: now + retention_days as i64 * SECONDS_PER_DAY,
        },
    )
}

/// What a page shows of a task.
pub open spec fn task_item_of(task: ScheduledTask) -> JsonView {
    JsonView::Object(
        Seq::empty().push(("id"@, JsonView::Text(task.id@))).push(
            ("title"@, JsonView::Text(task.title@)),
        ).push(("schedule"@, JsonView::Text(task.schedule@))).push(
            ("instruction"@, JsonView::Text(task.instruction@)),
        ).push(("next_run_at"@, int_view(task.next_run_at as int))),
    )
}

/// What a page shows of a task.
pub fn task_item(task: &ScheduledTask) -> (r: Json)
    ensures
        r@ == task_item_of(*task),
{
    let mut fields = Fields::new();
    fields.put_text("id", &task.id);
    fields.put_text("title", &task.title);
    fields.put_text("schedule", &task.schedule);
    fields.put_text("instruction", &task.instruction);
    fields.put("next_run_at", Json::integer(task.next_run_at));
    fields.done()
}

/// The account of the assistant, which must be known.
pub fn require_bot_id(bot_id: Option<String>) -> (r: Result<String, ApiError>)
    ensures
        match bot_id {
            Some(id) => r == Ok::<String, ApiError>(id),
            None => r is Err && answers(r->Err_0, 503, "尚未获取 Bot QQ 号"@),
        },
{
    match bot_id {
        Some(id) => Ok(id),
        None => Err(ApiError::new(503, "尚未获取 Bot QQ 号".to_owned())),
    }
}

/// Where a reply to a stored conversation goes.
pub fn message_target(conversation: &ConversationRecord, bot_id: Option<String>) -> (r: Result<
    MessageTarget,
    ApiError,
>)
    ensures
        match kind_of(conversation.kind@) {
            Some(kind) => match bot_id {
                Some(id) => {
                    &&& r is Ok
                    &&& r->Ok_0.source@ == conversation.source@
                    &&& r->Ok_0.bot_id@ == id@
                    &&& r->Ok_0.conversation.id@ == conversation.source_conversation_id@
                    &&& r->Ok_0.conversation.kind == kind
                    &&& option_text(r->Ok_0.conversation.title) == option_text(conversation.title)
                },
                None => r is Err && answers(r->Err_0, 503, "尚未获取 Bot QQ 号"@),
            },
            None => r is Err && answers(r->Err_0, 400, "会话类型无效"@),
        },
{
    let kind = match parse_kind(&conversation.kind) {
        Some(kind) => kind,
        None => {
            return Err(ApiError::bad_request("会话类型无效"));
        },
    };
    match require_bot_id(bot_id) {
        Ok(id) => Ok(
            MessageTarget {
                source: conversation.source.clone(),
                bot_id: id,
                conversation: Conversation {
                    id: conversation.source_conversation_id.clone(),
                    kind,
                    title: conversation.title.clone(),
                },
            },
        ),
        Err(e) => Err(e),
    }
}

/// How the members of a conversation are found.
#[derive(Debug, PartialEq, Eq)]
pub enum MembersPlan {
    /// They are known.
    Known { members: Vec<RuntimeGroupMember> },
    /// The platform is asked for the members of a group.
    Fetch { group_id: i64 },
    /// The number of the group is no number.
    BadGroup,
}

/// The other side of a direct conversation.
pub open spec fn friend_of(conversation: ConversationRecord, member: RuntimeGroupMember) -> bool {
    &&& member.user_id@ == conversation.source_conversation_id@
    &&& member.nickname@ == (match conversation.title {
        Some(t) => t@,
        None => conversation.source_conversation_id@,
    })
    &&& member.card@ == Seq::<char>::empty()
    &&& member.role@ == "friend"@
}

/// Whether the members that were fetched last can be used.
pub open spec fn still_fresh(cached: Option<CachedGroupMembers>, now: u64) -> bool {
    match cached {
        Some(c) => if now < c.fetched_at {
            true
        } else {
            now - c.fetched_at < GROUP_MEMBER_CACHE_TTL
        },
        None => false,
    }
}

/// How the members of a conversation are found: a direct one has one other side; those of a group
/// are asked for, unless that was done a short while ago.
pub fn plan_members(
    conversation: &ConversationRecord,
    cached: &Option<CachedGroupMembers>,
    now: u64,
) -> (r: MembersPlan)
    ensures
        if conversation.kind@ == "direct"@ {
            r matches MembersPlan::Known { members } && members@.len() == 1 && friend_of(
                *conversation,
                members@[0],
            )
        } else {
            match parse_i64_of(conversation.source_conversation_id@) {
                Some(id) => if still_fresh(*cached, now) {
                    r matches MembersPlan::Known { members } && members@ == cached.unwrap().members@
                } else {
                    r == MembersPlan::Fetch { group_id: id }
                },
                None => r == MembersPlan::BadGroup,
            }
        },
{
    if same_text(&conversation.kind, "direct") {
        let nickname = match &conversation.title {
            Some(t) => t.clone(),
            None => conversation.source_conversation_id.clone(),
        };
        let mut members: Vec<RuntimeGroupMember> = Vec::new();
        let card = String::new();
        assert(card@ =~= Seq::<char>::empty());
        members.push(
            RuntimeGroupMember {
                user_id: conversation.source_conversation_id.clone(),
                nickname,
                card,
                role: "friend".to_owned(),
            },
        );
        return MembersPlan::Known { members };
    }
    match parse_i64(&conversation.source_conversation_id) {
        Some(group_id) => {
            if let Some(c) = cached {
                if c.is_fresh(now, GROUP_MEMBER_CACHE_TTL) {
                    let mut members: Vec<RuntimeGroupMember> = Vec::new();
                    let mut i: usize = 0;
                    while i < c.members.len()
                        invariant
                            i <= c.members@.len(),
                            members@ == c.members@.take(i as int),
                        decreases c.members@.len() - i,
                    {
                        members.push(c.members[i].clone());
                        assert(c.members@.take(i + 1) =~= c.members@.take(i as int).push(
                            c.members@[i as int],
                        ));
                        i += 1;
                    }
                    assert(c.members@.take(i as int) =~= c.members@);
                    return MembersPlan::Known { members };
                }
            }
            MembersPlan::Fetch { group_id }
        },
        None => MembersPlan::BadGroup,
    }
}

/// The members of a group without one of them.
pub open spec fn without_member(members: Seq<RuntimeGroupMember>, user_id: Seq<char>) -> Seq<
    RuntimeGroupMember,
>
    decreases members.len(),
{
    if members.len() == 0 {
        Seq::empty()
    } else {
        let rest = without_member(members.drop_last(), user_id);
        if members.last().user_id@ == user_id {
            rest
        } else {
            rest.push(members.last())
        }
    }
}

/// The members of a group without the assistant.
pub open spec fn others_of(members: Seq<RuntimeGroupMember>, bot_id: Option<Seq<char>>) -> Seq<
    RuntimeGroupMember,
> {
    match bot_id {
        Some(id) => without_member(members, id),
        None => members,
    }
}

/// The members of a group that were just fetched, without the assistant.
pub fn fetched_members(members: Vec<RuntimeGroupMember>, bot_id: &Option<String>) -> (r: Vec<
    RuntimeGroupMember,
>)
    ensures
        r@ == others_of(members@, option_text(*bot_id)),
{
    let id = match bot_id {
        Some(id) => id,
        None => {
            return members;
        },
    };
    let mut others: Vec<RuntimeGroupMember> = Vec::new();
    let mut i: usize = 0;
    assert(members@.take(0) =~= Seq::empty());
    while i < members.len()
        invariant
            i <= members@.len(),
            others@ == without_member(members@.take(i as int), id@),
        decreases members@.len() - i,
    {
        assert(members@.take(i + 1).drop_last() =~= members@.take(i as int));
        if !same_text(&members[i].user_id, id) {
            others.push(members[i].clone());
        }
        i += 1;
    }
    assert(members@.take(i as int) =~= members@);
    others
}

/// The members of a group that could not be asked for: those that were fetched last, however long
/// ago, or what went wrong.
pub fn stale_members(cached: Option<CachedGroupMembers>, error: &str) -> (r: Result<
    Vec<RuntimeGroupMember>,
    ApiError,
>)
    ensures
        match cached {
            Some(c) => r == Ok::<Vec<RuntimeGroupMember>, ApiError>(c.members),
            None => r is Err && answers(r->Err_0, 502, "获取群成员失败："@ + error@),
        },
{
    match cached {
        Some(c) => Ok(c.members),
        None => {
            let mut message = "获取群成员失败：".to_owned();
            message.push_str(error);
            Err(ApiError::new(502, message))
        },
    }
}

/// Checks that somebody is a member of a conversation.
pub fn ensure_conversation_member(members: &Vec<RuntimeGroupMember>, user_id: &str) -> (r: Result<
    (),
    ApiError,
>)
    ensures
        match r {
            Ok(()) => seen_before(members@, trim_of(user_id@), members@.len() as int),
            Err(e) => !seen_before(members@, trim_of(user_id@), members@.len() as int) && answers(
                e,
                400,
                "指定 QQ 号不是当前会话成员"@,
            ),
        },
{
    if is_seen_before(members, &trim(user_id), members.len()) {
        Ok(())
    } else {
        Err(ApiError::bad_request("指定 QQ 号不是当前会话成员"))
    }
}

/// A page shows a message as it is kept: its number, who sent it and when, its text and its pieces, and
/// whether it was read. A message of the assistant is told by the account alone, and only such a message
/// is shown under the name of the assistant.
pub proof fn law_messages_are_shown_as_kept(
    message: ChatMessage,
    parts: Option<JsonView>,
    bot_id: Option<Seq<char>>,
    bot_name: Option<Seq<char>>,
)
    ensures
        ({
            let item = message_item_of(message, parts, bot_id, bot_name);
            let own = bot_id == Some(message.sender_id@);
            &&& item.field("id"@) == Some(int_view(message.id as int))
            &&& item.text_field("sender_id"@) == Some(message.sender_id@)
            &&& !own ==> item.text_field("sender_name"@) == Some(message.sender_display_name@)
            &&& own && bot_name is None ==> item.text_field("sender_name"@) == Some(
                message.sender_display_name@,
            )
            &&& bot_name matches Some(name) ==> (own && !is_blank(name) ==> item.text_field(
                "sender_name"@,
            ) == Some(name))
            &&& message.content_text matches Some(text) ==> item.text_field("content"@) == Some(
                text@,
            )
            &&& parts is Some ==> item.field("parts"@) == parts
            &&& item.field("is_bot"@) == Some(JsonView::Bool(own))
            &&& item.field("is_read"@) == Some(JsonView::Bool(message.is_read))
            &&& item.field("timestamp"@) == Some(int_view(message.event_timestamp as int))
        }),
{
    reveal_strlit("id");
    reveal_strlit("sender_id");
    reveal_strlit("sender_name");
    reveal_strlit("content");
    reveal_strlit("parts");
    reveal_strlit("is_bot");
    reveal_strlit("is_read");
    reveal_strlit("timestamp");
    assert("id"@.len() == 2);
    assert("sender_id"@.len() == 9);
    assert("sender_name"@.len() == 11);
    assert("content"@.len() == 7);
    assert("parts"@.len() == 5);
    assert("is_bot"@.len() == 6);
    assert("is_read"@.len() == 7);
    assert("timestamp"@.len() == 9);
    assert("sender_id"@[0] == 's');
    assert("content"@[0] == 'c');
    assert("is_read"@[0] == 'i');
    assert("timestamp"@[0] == 't');
    let fields = message_item_of(message, parts, bot_id, bot_name)->Object_0;
    lemma_field_at(fields, "id"@, 0);
    lemma_field_at(fields, "sender_id"@, 1);
    lemma_field_at(fields, "sender_name"@, 2);
    lemma_field_at(fields, "content"@, 3);
    lemma_field_at(fields, "parts"@, 4);
    lemma_field_at(fields, "is_bot"@, 5);
    lemma_field_at(fields, "is_read"@, 6);
    lemma_field_at(fields, "timestamp"@, 7);
}

/// The days that are left cover the time that is left, and not a whole day more. Nothing is left once
/// the time has come.
pub proof fn law_remaining_days_cover_the_time(expires_at: i64, now: i64)
    ensures
        expires_at <= now ==> remaining_days(expires_at, now) == 0,
        expires_at > now ==> (remaining_days(expires_at, now) - 1) * 86400 < expires_at - now
            <= remaining_days(expires_at, now) * 86400,
{
}

/// A page shows what is remembered of a conversation as it is kept.
pub proof fn law_memories_are_shown_as_kept(memory: CharacterMemoryRecord, now: i64)
    ensures
        ({
            let item = character_memory_of(memory, now);
            &&& item.field("id"@) == Some(int_view(memory.id as int))
            &&& item.text_field("title"@) == Some(memory.title@)
            &&& item.text_field("content"@) == Some(memory.content@)
            &&& item.field("expires_at"@) == Some(int_view(memory.expires_at as int))
            &&& item.field("expiring"@) == Some(JsonView::Bool(memory.expires_at <= now))
        }),
{
    reveal_strlit("id");
    reveal_strlit("title");
    reveal_strlit("content");
    reveal_strlit("expires_at");
    reveal_strlit("remaining_days");
    reveal_strlit("expiring");
    assert("id"@.len() == 2);
    assert("title"@.len() == 5);
    assert("content"@.len() == 7);
    assert("expires_at"@.len() == 10);
    assert("remaining_days"@.len() == 14);
    assert("expiring"@.len() == 8);
    let fields = character_memory_of(memory, now)->Object_0;
    lemma_field_at(fields, "id"@, 0);
    lemma_field_at(fields, "title"@, 1);
    lemma_field_at(fields, "content"@, 2);
    lemma_field_at(fields, "expires_at"@, 3);
    lemma_field_at(fields, "remaining_days"@, 4);
    lemma_field_at(fields, "expiring"@, 5);
}

/// A page shows a task as it is kept.
pub proof fn law_tasks_are_shown_as_kept(task: ScheduledTask)
    ensures
        ({
            let item = task_item_of(task);
            &&& item.text_field("id"@) == Some(task.id@)
            &&& item.text_field("title"@) == Some(task.title@)
            &&& item.text_field("schedule"@) == Some(task.schedule@)
            &&& item.text_field("instruction"@) == Some(task.instruction@)
            &&& item.field("next_run_at"@) == Some(int_view(task.next_run_at as int))
        }),
{
    reveal_strlit("id");
    reveal_strlit("title");
    reveal_strlit("schedule");
    reveal_strlit("instruction");
    reveal_strlit("next_run_at");
    assert("id"@.len() == 2);
    assert("title"@.len() == 5);
    assert("schedule"@.len() == 8);
    assert("instruction"@.len() == 11);
    assert("next_run_at"@.len() == 11);
    assert("instruction"@[0] == 'i');
    assert("next_run_at"@[0] == 'n');
    let fields = task_item_of(task)->Object_0;
    lemma_field_at(fields, "id"@, 0);
    lemma_field_at(fields, "title"@, 1);
    lemma_field_at(fields, "schedule"@, 2);
    lemma_field_at(fields, "instruction"@, 3);
    lemma_field_at(fields, "next_run_at"@, 4);
}

/// Each member is shown with their own names and, at their first place in the list, with what is
/// remembered of them.
pub proof fn law_members_are_shown_as_kept(
    members: Seq<RuntimeGroupMember>,
    memories: Seq<OwnedUserMemoryRecord>,
    stale: bool,
    i: int,
)
    requires
        0 <= i < members.len(),
    ensures
        user_memories_of(members, memories, stale).array_field("users"@) matches Some(users)
            && users.len() == members.len() && {
            &&& users[i].text_field("user_id"@) == Some(members[i].user_id@)
            &&& users[i].text_field("nickname"@) == Some(members[i].nickname@)
            &&& users[i].text_field("card"@) == Some(members[i].card@)
            &&& users[i].text_field("role"@) == Some(members[i].role@)
            &&& (forall|j: int| 0 <= j < i ==> (#[trigger] members[j]).user_id@ != members[i].user_id@)
                ==> users[i].array_field("memories"@) == Some(
                memories_of(memories, members[i].user_id@),
            )
        },
{
    let shown = user_memories_of(members, memories, stale);
    lemma_field_at(shown->Object_0, "users"@, 0);
    reveal_strlit("user_id");
    reveal_strlit("nickname");
    reveal_strlit("card");
    reveal_strlit("role");
    reveal_strlit("memories");
    assert("user_id"@.len() == 7);
    assert("nickname"@.len() == 8);
    assert("card"@.len() == 4);
    assert("role"@.len() == 4);
    assert("memories"@.len() == 8);
    assert("nickname"@[0] == 'n');
    assert("card"@[0] == 'c');
    assert("role"@[0] == 'r');
    assert("memories"@[0] == 'm');
    let fields = shown.array_field("users"@).unwrap()[i]->Object_0;
    lemma_field_at(fields, "user_id"@, 0);
    lemma_field_at(fields, "nickname"@, 1);
    lemma_field_at(fields, "card"@, 2);
    lemma_field_at(fields, "role"@, 3);
    lemma_field_at(fields, "memories"@, 4);
}

/// What is remembered of a person is picked memory by memory: one memory is shown, with its id and its
/// content, where it is of that person, and the memories of two lists are those of the first and then
/// those of the second.
pub proof fn law_memories_belong_to_their_person(
    a: Seq<OwnedUserMemoryRecord>,
    b: Seq<OwnedUserMemoryRecord>,
    memory: OwnedUserMemoryRecord,
    user_id: Seq<char>,
)
    ensures
        memory.user_id@ != user_id ==> memories_of(seq![memory], user_id).len() == 0,
        memory.user_id@ == user_id ==> {
            let shown = memories_of(seq![memory], user_id);
            &&& shown.len() == 1
            &&& shown[0].text_field("id"@) == Some(memory.memory_id@)
            &&& shown[0].text_field("content"@) == Some(memory.content@)
        },
        memories_of(a + b, user_id) == memories_of(a, user_id) + memories_of(b, user_id),
    decreases b.len(),
{
    reveal_strlit("id");
    reveal_strlit("content");
    assert("id"@.len() == 2);
    assert("content"@.len() == 7);
    let one = seq![memory];
    assert(one.drop_last() =~= Seq::empty());
    assert(memories_of(one.drop_last(), user_id) =~= Seq::empty());
    assert(one.last() == memory);
    let fields = user_memory_item(memory)->Object_0;
    lemma_field_at(fields, "id"@, 0);
    lemma_field_at(fields, "content"@, 1);
    if b.len() == 0 {
        assert(a + b =~= a);
        assert(memories_of(a + b, user_id) =~= memories_of(a, user_id) + memories_of(b, user_id));
    } else {
        law_memories_belong_to_their_person(a, b.drop_last(), memory, user_id);
        assert((a + b).drop_last() =~= a + b.drop_last());
        assert((a + b).last() == b.last());
        assert(memories_of(a + b, user_id) =~= memories_of(a, user_id) + memories_of(b, user_id));
    }
}

/// Exactly the assistant is left out of the members of a group, and the others stay in their order.
pub proof fn law_only_the_assistant_is_left_out(
    a: Seq<RuntimeGroupMember>,
    b: Seq<RuntimeGroupMember>,
    member: RuntimeGroupMember,
    bot_id: Seq<char>,
)
    ensures
        others_of(a, None) == a,
        member.user_id@ == bot_id ==> others_of(seq![member], Some(bot_id)).len() == 0,
        member.user_id@ != bot_id ==> others_of(seq![member], Some(bot_id)) == seq![member],
        others_of(a + b, Some(bot_id)) == others_of(a, Some(bot_id)) + others_of(b, Some(bot_id)),
    decreases b.len(),
{
    let one = seq![member];
    assert(one.drop_last() =~= Seq::empty());
    assert(without_member(one.drop_last(), bot_id) =~= Seq::empty());
    assert(one.last() == member);
    if member.user_id@ != bot_id {
        assert(without_member(one, bot_id) =~= one);
    }
    if b.len() == 0 {
        assert(a + b =~= a);
        assert(without_member(a + b, bot_id) =~= without_member(a, bot_id) + without_member(b, bot_id));
    } else {
        law_only_the_assistant_is_left_out(a, b.drop_last(), member, bot_id);
        assert((a + b).drop_last() =~= a + b.drop_last());
        assert((a + b).last() == b.last());
        assert(without_member(a + b, bot_id) =~= without_member(a, bot_id) + without_member(b, bot_id));
    }
}

} // verus!
