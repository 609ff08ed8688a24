//! The Gemini interface: addresses, thinking levels, plain contents and text replies.

pub mod chat;

use vstd::prelude::*;

use crate::ai_provider::chat_wire::{lemma_object2, optional_text, read_optional_text};
use crate::ai_provider::{context_view, ContextMessage, ContextMessageView, MessageRole};
use crate::json::{
    int_view, items_view, json_parsed, lemma_field_at, named, object1, object2, option_json,
    option_text, parse_json, put_field, with_field, with_names, Fields, Items, Json, JsonView,
};
use crate::text::{
    blank, find_from, has_text, is_blank, join, join_of, lemma_find_first, lemma_joined, same_text,
    split_once, split_once_of, strip_prefix, texts, trim, trim_end_char, trim_end_char_of, trim_of,
    trim_prefix, trim_prefix_of, without_prefix,
};

verus! {

pub const DEFAULT_BASE_URL: &'static str = "https://generativelanguage.googleapis.com/v1beta";

/// What a provider of this kind is set up with.
#[derive(Debug, PartialEq, Eq)]
pub struct GeminiProvider {
    pub api_key: String,
    pub base_url: String,
    pub model: String,
    pub max_tokens: Option<i32>,
    pub reasoning_effort: String,
}

/// The address that requests go to: without trailing slashes, and the default where none is given.
pub open spec fn base_url_of(base_url: Seq<char>) -> Seq<char> {
    if is_blank(base_url) {
        DEFAULT_BASE_URL@
    } else {
        trim_end_char_of(base_url, '/')
    }
}

/// The address that requests go to.
pub fn normalized_base_url(base_url: &str) -> (r: String)
    ensures
        r@ == base_url_of(base_url@),
{
    if blank(base_url) {
        DEFAULT_BASE_URL.to_owned()
    } else {
        trim_end_char(base_url, '/')
    }
}

/// The address at which a model generates content.
pub open spec fn content_url(base_url: Seq<char>, model: Seq<char>) -> Seq<char> {
    base_url + "/models/"@ + trim_prefix_of(model, "models/"@) + ":generateContent"@
}

/// The address at which a model generates content.
pub fn content_url_for(base_url: &str, model: &str) -> (r: String)
    ensures
        r@ == content_url(base_url@, model@),
{
    let name = trim_prefix(model, "models/");
    let mut r = base_url.to_owned();
    r.push_str("/models/");
    r.push_str(&name);
    r.push_str(":generateContent");
    r
}

/// An effort that is not known.
#[derive(Debug, PartialEq, Eq)]
pub struct UnknownEffort {
    pub effort: String,
}

/// The thinking level for an effort: none for `auto`, an error for an unknown one.
pub open spec fn thinking_level(effort: Seq<char>) -> Result<Option<Seq<char>>, Seq<char>> {
    let wanted = trim_of(effort);
    if wanted == "auto"@ {
        Ok(None)
    } else if wanted == "none"@ || wanted == "minimal"@ {
        Ok(Some("minimal"@))
    } else if wanted == "low"@ {
        Ok(Some("low"@))
    } else if wanted == "medium"@ {
        Ok(Some("medium"@))
    } else if wanted == "high"@ || wanted == "xhigh"@ {
        Ok(Some("high"@))
    } else {
        Err(wanted)
    }
}

/// The thinking settings for an effort.
pub open spec fn thinking_settings(effort: Seq<char>) -> Result<Option<JsonView>, Seq<char>> {
    match thinking_level(effort) {
        Ok(Some(level)) => Ok(Some(object1("thinkingLevel"@, JsonView::Text(level)))),
        Ok(None) => Ok(None),
        Err(e) => Err(e),
    }
}

/// The thinking settings for an effort.
pub fn thinking_config(effort: &str) -> (r: Result<Option<Json>, UnknownEffort>)
    ensures
        match r {
            Ok(t) => thinking_settings(effort@) == Ok::<_, Seq<char>>(option_json(t)),
            Err(e) => thinking_settings(effort@) == Err::<Option<JsonView>, _>(e.effort@),
        },
{
    let wanted = trim(effort);
    let level = if same_text(&wanted, "auto") {
        return Ok(None);
    } else if same_text(&wanted, "none") || same_text(&wanted, "minimal") {
        "minimal"
    } else if same_text(&wanted, "low") {
        "low"
    } else if same_text(&wanted, "medium") {
        "medium"
    } else if same_text(&wanted, "high") || same_text(&wanted, "xhigh") {
        "high"
    } else {
        return Err(UnknownEffort { effort: wanted });
    };
    let mut fields = Fields::new();
    fields.put_text("thinkingLevel", level);
    Ok(Some(fields.done()))
}

/// A request with thinking settings in its generation settings.
pub open spec fn with_thinking(body: JsonView, thinking: JsonView) -> JsonView {
    match body {
        JsonView::Object(fields) => {
            let generation = match body.field("generationConfig"@) {
                Some(JsonView::Object(inner)) => inner,
                _ => Seq::empty(),
            };
            JsonView::Object(
                put_field(
                    fields,
                    "generationConfig"@,
                    JsonView::Object(put_field(generation, "thinkingConfig"@, thinking)),
                ),
            )
        },
        _ => body,
    }
}

/// A request as it is sent: the thinking settings for `effort` are added to it.
pub open spec fn sent_body(body: JsonView, effort: Seq<char>) -> Result<JsonView, Seq<char>> {
    match thinking_settings(effort) {
        Ok(Some(thinking)) => Ok(with_thinking(body, thinking)),
        Ok(None) => Ok(body),
        Err(e) => Err(e),
    }
}

impl GeminiProvider {
    pub fn new(
        api_key: String,
        base_url: String,
        model: String,
        max_tokens: Option<i32>,
        reasoning_effort: String,
    ) -> (r: GeminiProvider)
        ensures
            r.api_key@ == api_key@,
            r.base_url@ == base_url_of(base_url@),
            r.model@ == model@,
            r.max_tokens == max_tokens,
            r.reasoning_effort@ == reasoning_effort@,
    {
        GeminiProvider {
            api_key,
            base_url: normalized_base_url(&base_url),
            model,
            max_tokens,
            reasoning_effort,
        }
    }

    /// The address at which the model generates content.
    pub fn generate_content_url(&self) -> (r: String)
        ensures
            r@ == content_url(self.base_url@, self.model@),
    {
        content_url_for(&self.base_url, &self.model)
    }

    /// A request as it is sent. Generation settings, where there are any, are an object.
    pub fn request_body(&self, body: Json) -> (r: Result<Json, UnknownEffort>)
        requires
            body@ is Object,
            body@.field("generationConfig"@) matches Some(v) ==> v is Object || v is Null,
        ensures
            match r {
                Ok(b) => sent_body(body@, self.reasoning_effort@) == Ok::<_, Seq<char>>(b@),
                Err(e) => sent_body(body@, self.reasoning_effort@) == Err::<JsonView, _>(e.effort@),
            },
    {
        match thinking_config(&self.reasoning_effort) {
            Err(e) => Err(e),
            Ok(None) => Ok(body),
            Ok(Some(thinking)) => {
                let generation = match body.get("generationConfig") {
                    Some(Json::Object(inner)) => body.get("generationConfig").unwrap().copy(),
                    _ => Fields::new().done(),
                };
                let settings = generation.set("thinkingConfig", thinking);
                Ok(body.set("generationConfig", settings))
            },
        }
    }

    /// A request to search the web and to read addresses.
    pub fn web_search_request(&self, question: &str) -> (r: Json)
        ensures
            r@ == search_request(self.max_tokens, question@),
    {
        let mut part = Fields::new();
        part.put_text("text", question);
        let mut parts = Items::new();
        parts.push(part.done());
        let mut content = Fields::new();
        content.put_text("role", "user");
        content.put("parts", parts.done());
        let mut contents = Items::new();
        contents.push(content.done());
        let mut search = Fields::new();
        search.put("googleSearch", Fields::new().done());
        let mut address = Fields::new();
        address.put("urlContext", Fields::new().done());
        let mut tools = Items::new();
        tools.push(search.done());
        tools.push(address.done());
        let mut generation = Fields::new();
        if let Some(n) = self.max_tokens {
            generation.put("maxOutputTokens", Json::integer(n as i64));
        }
        let mut fields = Fields::new();
        fields.put("contents", contents.done());
        fields.put("tools", tools.done());
        fields.put("generationConfig", generation.done());
        fields.done()
    }
}

/// The limit on the length of a reply, where there is one.
pub open spec fn token_limit(max_tokens: Option<i32>) -> Option<JsonView> {
    match max_tokens {
        Some(n) => Some(int_view(n as int)),
        None => None,
    }
}

/// A request to search the web and to read addresses.
pub open spec fn search_request(max_tokens: Option<i32>, question: Seq<char>) -> JsonView {
    JsonView::Object(
        Seq::empty().push(
            (
                "contents"@,
                JsonView::Array(
                    seq![
                        object2(
                            "role"@,
                            JsonView::Text("user"@),
                            "parts"@,
                            JsonView::Array(seq![object1("text"@, JsonView::Text(question))]),
                        ),
                    ],
                ),
            ),
        ).push(
            (
                "tools"@,
                JsonView::Array(
                    Seq::empty().push(
                        object1("googleSearch"@, JsonView::Object(Seq::empty())),
                    ).push(object1("urlContext"@, JsonView::Object(Seq::empty()))),
                ),
            ),
        ).push(
            (
                "generationConfig"@,
                JsonView::Object(
                    with_field(Seq::empty(), "maxOutputTokens"@, token_limit(max_tokens)),
                ),
            ),
        ),
    )
}

/// An image in a data address.
#[derive(Debug, PartialEq, Eq)]
pub struct GeminiInlineData {
    pub mime_type: String,
    pub data: String,
}

/// Why an address is no image that can be sent.
#[derive(Debug, Clone, Copy, PartialEq, Eq, Structural)]
pub enum DataUrlError {
    NotDataUrl,
    MissingSeparator,
    Empty,
}

/// What an error says, for a provider.
pub open spec fn data_url_error_text(error: DataUrlError, provider: Seq<char>) -> Seq<char> {
    match error {
        DataUrlError::NotDataUrl => provider + " 视觉请求只支持 data URL 图片"@,
        DataUrlError::MissingSeparator => "图片 data URL 缺少 ;base64, 分隔符"@,
        DataUrlError::Empty => "图片 data URL 的 MIME 类型或数据为空"@,
    }
}

impl DataUrlError {
    /// What the error says, for a provider.
    pub fn message(&self, provider: &str) -> (r: String)
        ensures
            r@ == data_url_error_text(*self, provider@),
    {
        match self {
            DataUrlError::NotDataUrl => {
                let mut r = provider.to_owned();
                r.push_str(" 视觉请求只支持 data URL 图片");
                r
            },
            DataUrlError::MissingSeparator => "图片 data URL 缺少 ;base64, 分隔符".to_owned(),
            DataUrlError::Empty => "图片 data URL 的 MIME 类型或数据为空".to_owned(),
        }
    }
}

/// The kind and the data of an image in a data address.
pub open spec fn data_url_parts(url: Seq<char>) -> Result<(Seq<char>, Seq<char>), DataUrlError> {
    match without_prefix(url, "data:"@) {
        None => Err(DataUrlError::NotDataUrl),
        Some(rest) => match split_once_of(rest, ";base64,"@) {
            None => Err(DataUrlError::MissingSeparator),
            Some((mime_type, data)) => if is_blank(mime_type) || is_blank(data) {
                Err(DataUrlError::Empty)
            } else {
                Ok((mime_type, data))
            },
        },
    }
}

/// The kind and the data of an image in a data address.
pub fn parse_data_url(image_data_url: &str) -> (r: Result<GeminiInlineData, DataUrlError>)
    ensures
        match r {
            Ok(d) => data_url_parts(image_data_url@) == Ok::<_, DataUrlError>(
                (d.mime_type@, d.data@),
            ),
            Err(e) => data_url_parts(image_data_url@) == Err::<(Seq<char>, Seq<char>), _>(e),
        },
{
    match strip_prefix(image_data_url, "data:") {
        None => Err(DataUrlError::NotDataUrl),
        Some(rest) => match split_once(&rest, ";base64,") {
            None => Err(DataUrlError::MissingSeparator),
            Some((mime_type, data)) => {
                if blank(&mime_type) || blank(&data) {
                    Err(DataUrlError::Empty)
                } else {
                    Ok(GeminiInlineData { mime_type, data })
                }
            },
        },
    }
}

/// A request to describe an image.
pub open spec fn vision_request(
    max_tokens: Option<i32>,
    mime_type: Seq<char>,
    data: Seq<char>,
    prompt: Seq<char>,
) -> JsonView {
    object2(
        "contents"@,
        JsonView::Array(
            seq![
                object2(
                    "role"@,
                    JsonView::Text("user"@),
                    "parts"@,
                    JsonView::Array(
                        Seq::empty().push(object1("text"@, JsonView::Text(prompt))).push(
                            object1("inlineData"@, inline_data(mime_type, data)),
                        ),
                    ),
                ),
            ],
        ),
        "generationConfig"@,
        JsonView::Object(
            with_field(Seq::empty(), "maxOutputTokens"@, token_limit(max_tokens)).push(
                ("mediaResolution"@, JsonView::Text("MEDIA_RESOLUTION_HIGH"@)),
            ),
        ),
    )
}

/// An image as a request holds it.
pub open spec fn inline_data(mime_type: Seq<char>, data: Seq<char>) -> JsonView {
    object2("mimeType"@, JsonView::Text(mime_type), "data"@, JsonView::Text(data))
}

/// An image as a request holds it.
pub fn inline_data_json(image: &GeminiInlineData) -> (r: Json)
    ensures
        r@ == inline_data(image.mime_type@, image.data@),
{
    let mut fields = Fields::new();
    fields.put_text("mimeType", &image.mime_type);
    fields.put_text("data", &image.data);
    fields.done()
}

/// A request to describe an image.
pub fn build_vision_request(
    max_tokens: Option<i32>,
    image_data_url: &str,
    prompt: &str,
) -> (r: Result<Json, DataUrlError>)
    ensures
        match r {
            Ok(body) => data_url_parts(image_data_url@) matches Ok((mime_type, data)) && body@
                == vision_request(max_tokens, mime_type, data, prompt@),
            Err(e) => data_url_parts(image_data_url@) == Err::<(Seq<char>, Seq<char>), _>(e),
        },
{
    let image = match parse_data_url(image_data_url) {
        Ok(image) => image,
        Err(e) => {
            return Err(e);
        },
    };
    let mut text = Fields::new();
    text.put_text("text", prompt);
    let mut picture = Fields::new();
    picture.put("inlineData", inline_data_json(&image));
    let mut parts = Items::new();
    parts.push(text.done());
    parts.push(picture.done());
    let mut content = Fields::new();
    content.put_text("role", "user");
    content.put("parts", parts.done());
    let mut contents = Items::new();
    contents.push(content.done());
    let mut generation = Fields::new();
    if let Some(n) = max_tokens {
        generation.put("maxOutputTokens", Json::integer(n as i64));
    }
    generation.put_text("mediaResolution", "MEDIA_RESOLUTION_HIGH");
    let mut fields = Fields::new();
    fields.put("contents", contents.done());
    fields.put("generationConfig", generation.done());
    Ok(fields.done())
}

/// Consecutive texts of one speaker.
#[derive(Debug, PartialEq, Eq)]
pub struct GeminiContent {
    pub role: String,
    pub texts: Vec<String>,
}

/// What consecutive texts of one speaker hold.
pub struct TurnView {
    pub role: Seq<char>,
    pub texts: Seq<Seq<char>>,
}

impl View for GeminiContent {
    type V = TurnView;

    open spec fn view(&self) -> TurnView {
        TurnView { role: self.role@, texts: texts(self.texts@) }
    }
}

/// The turns of a list.
pub open spec fn turns_view(contents: Seq<GeminiContent>) -> Seq<TurnView> {
    Seq::new(contents.len(), |i: int| contents[i]@)
}

/// Turns with one more text: it joins the last turn where the speaker is the same.
pub open spec fn with_turn(
    turns: Seq<TurnView>,
    role: Seq<char>,
    text: Seq<char>,
) -> Seq<TurnView> {
    if turns.len() > 0 && turns.last().role == role {
        turns.drop_last().push(TurnView { role, texts: turns.last().texts.push(text) })
    } else {
        turns.push(TurnView { role, texts: seq![text] })
    }
}

/// Appends a text: it joins the last turn where the speaker is the same.
pub fn push_gemini_text_content(contents: &mut Vec<GeminiContent>, role: &str, text: &str)
    ensures
        turns_view(final(contents)@) == with_turn(turns_view(old(contents)@), role@, text@),
{
    let ghost before = turns_view(contents@);
    if contents.len() > 0 && same_text(&contents[contents.len() - 1].role, role) {
        if let Some(mut last) = contents.pop() {
            let ghost said = texts(last.texts@);
            last.texts.push(text.to_owned());
            assert(texts(last.texts@) =~= said.push(text@));
            contents.push(last);
        }
        assert(turns_view(contents@) =~= with_turn(before, role@, text@));
    } else {
        let mut said: Vec<String> = Vec::new();
        said.push(text.to_owned());
        assert(texts(said@) =~= seq![text@]);
        contents.push(GeminiContent { role: role.to_owned(), texts: said });
        assert(turns_view(contents@) =~= with_turn(before, role@, text@));
    }
}

/// The turns that text messages make; instructions are no turn.
pub open spec fn message_turns(messages: Seq<ContextMessageView>) -> Seq<TurnView>
    decreases messages.len(),
{
    if messages.len() == 0 {
        Seq::empty()
    } else {
        let front = message_turns(messages.drop_last());
        match messages.last().role {
            MessageRole::System => front,
            MessageRole::User => with_turn(front, "user"@, messages.last().content),
            MessageRole::Assistant => with_turn(front, "model"@, messages.last().content),
        }
    }
}

/// The instructions among text messages.
pub open spec fn instructions(messages: Seq<ContextMessageView>) -> Seq<Seq<char>>
    decreases messages.len(),
{
    if messages.len() == 0 {
        Seq::empty()
    } else {
        let front = instructions(messages.drop_last());
        if messages.last().role is System {
            front.push(messages.last().content)
        } else {
            front
        }
    }
}

/// The instructions as one text, where there are any.
pub open spec fn joined_instructions(list: Seq<Seq<char>>) -> Option<Seq<char>> {
    if list.len() == 0 {
        None
    } else {
        Some(join_of(list, "\n\n"@))
    }
}

/// The turns of a request: there is always one.
pub open spec fn chat_turns(messages: Seq<ContextMessageView>) -> Seq<TurnView> {
    let turns = message_turns(messages);
    if turns.len() == 0 {
        seq![TurnView { role: "user"@, texts: seq![Seq::empty()] }]
    } else {
        turns
    }
}

/// The instructions and the turns of a request made of text messages.
pub fn build_gemini_chat_contents(request_messages: &Vec<ContextMessage>) -> (r: (
    Option<String>,
    Vec<GeminiContent>,
))
    ensures
        option_text(r.0) == joined_instructions(instructions(context_view(request_messages@))),
        turns_view(r.1@) == chat_turns(context_view(request_messages@)),
{
    let mut system_texts: Vec<String> = Vec::new();
    let mut contents: Vec<GeminiContent> = Vec::new();
    let ghost all = context_view(request_messages@);
    assert(texts(system_texts@) =~= Seq::empty());
    assert(turns_view(contents@) =~= Seq::empty());
    let mut i: usize = 0;
    while i < request_messages.len()
        invariant
            i <= request_messages@.len(),
            all == context_view(request_messages@),
            texts(system_texts@) == instructions(all.take(i as int)),
            turns_view(contents@) == message_turns(all.take(i as int)),
        decreases request_messages@.len() - i,
    {
        let message = &request_messages[i];
        proof {
            assert(all.take(i + 1).drop_last() =~= all.take(i as int));
            assert(all.take(i + 1).last() == message@);
        }
        match message.role {
            MessageRole::System => {
                let ghost before = texts(system_texts@);
                system_texts.push(message.content.clone());
                assert(texts(system_texts@) =~= before.push(message.content@));
            },
            MessageRole::User => push_gemini_text_content(&mut contents, "user", &message.content),
            MessageRole::Assistant => push_gemini_text_content(
                &mut contents,
                "model",
                &message.content,
            ),
        }
        i += 1;
    }
    assert(all.take(i as int) =~= all);
    if contents.len() == 0 {
        push_gemini_text_content(&mut contents, "user", "");
        proof {
            reveal_strlit("");
            assert(""@ =~= Seq::<char>::empty());
            assert(turns_view(contents@) =~= chat_turns(all));
        }
    }
    let system = if system_texts.len() == 0 {
        None
    } else {
        Some(join(&system_texts, "\n\n"))
    };
    (system, contents)
}

/// A text piece of a turn.
pub open spec fn text_part(text: Seq<char>) -> JsonView {
    object1("text"@, JsonView::Text(text))
}

/// A turn as a request holds it.
pub open spec fn turn_json(turn: TurnView) -> JsonView {
    object2(
        "role"@,
        JsonView::Text(turn.role),
        "parts"@,
        JsonView::Array(Seq::new(turn.texts.len(), |i: int| text_part(turn.texts[i]))),
    )
}

/// Turns as a request holds them.
pub open spec fn turns_json(turns: Seq<TurnView>) -> Seq<JsonView> {
    Seq::new(turns.len(), |i: int| turn_json(turns[i]))
}

/// Instructions as a request holds them.
pub open spec fn instruction_json(system: Option<Seq<char>>) -> Option<JsonView> {
    match system {
        Some(text) => Some(object1("parts"@, JsonView::Array(seq![text_part(text)]))),
        None => None,
    }
}

/// Instructions as a request holds them.
pub fn instruction_to_json(system: &Option<String>) -> (r: Option<Json>)
    ensures
        option_json(r) == instruction_json(option_text(*system)),
{
    match system {
        Some(text) => {
            let mut part = Fields::new();
            part.put_text("text", text);
            let mut parts = Items::new();
            parts.push(part.done());
            let mut fields = Fields::new();
            fields.put("parts", parts.done());
            Some(fields.done())
        },
        None => None,
    }
}

/// Turns as a request holds them.
pub fn turns_to_json(contents: &Vec<GeminiContent>) -> (r: Json)
    ensures
        r@ == JsonView::Array(turns_json(turns_view(contents@))),
{
    let ghost listed = turns_json(turns_view(contents@));
    let mut items = Items::new();
    let mut i: usize = 0;
    while i < contents.len()
        invariant
            i <= contents@.len(),
            listed == turns_json(turns_view(contents@)),
            items@ == listed.take(i as int),
        decreases contents@.len() - i,
    {
        let said = &contents[i].texts;
        let ghost pieces = Seq::new(texts(said@).len(), |i: int| text_part(texts(said@)[i]));
        let mut parts = Items::new();
        let mut j: usize = 0;
        while j < said.len()
            invariant
                j <= said@.len(),
                pieces == Seq::new(texts(said@).len(), |i: int| text_part(texts(said@)[i])),
                parts@ == pieces.take(j as int),
            decreases said@.len() - j,
        {
            let mut part = Fields::new();
            part.put_text("text", &said[j]);
            parts.push(part.done());
            assert(pieces.take(j + 1) =~= pieces.take(j as int).push(pieces[j as int]));
            j += 1;
        }
        assert(pieces.take(j as int) =~= pieces);
        let mut fields = Fields::new();
        fields.put_text("role", &contents[i].role);
        fields.put("parts", parts.done());
        items.push(fields.done());
        assert(listed.take(i + 1) =~= listed.take(i as int).push(listed[i as int]));
        i += 1;
    }
    assert(listed.take(i as int) =~= listed);
    items.done()
}

/// A piece of a reply.
#[derive(Debug, PartialEq, Eq)]
pub struct GeminiResponsePart {
    pub text: Option<String>,
    /// Whether the text is a thought of the model and no part of the answer.
    pub thought: bool,
}

/// What a piece of a reply holds.
pub struct ReplyPartView {
    pub text: Option<Seq<char>>,
    pub thought: bool,
}

impl View for GeminiResponsePart {
    type V = ReplyPartView;

    open spec fn view(&self) -> ReplyPartView {
        ReplyPartView { text: option_text(self.text), thought: self.thought }
    }
}

/// The pieces of a list.
pub open spec fn reply_parts_view(parts: Seq<GeminiResponsePart>) -> Seq<ReplyPartView> {
    Seq::new(parts.len(), |i: int| parts[i]@)
}

/// The pieces of an optional list.
pub open spec fn option_parts(parts: Option<Vec<GeminiResponsePart>>) -> Option<
    Seq<ReplyPartView>,
> {
    match parts {
        Some(list) => Some(reply_parts_view(list@)),
        None => None,
    }
}

/// Whether a piece is marked as a thought; nothing where the mark is something else.
pub open spec fn thought_mark(v: JsonView) -> Option<bool> {
    match v.field("thought"@) {
        None => Some(false),
        Some(JsonView::Bool(b)) => Some(b),
        Some(_) => None,
    }
}

/// The names of the fields of a piece, in the order in which a list holds them; the mark of a
/// thought may be missing at the end.
pub open spec fn part_names(v: JsonView, thoughts: bool) -> Seq<&'static str> {
    if thoughts && v is Array && v->Array_0.len() == 2 {
        seq!["text", "thought"]
    } else {
        seq!["text"]
    }
}

/// A piece of a reply; nothing where it has another shape. Marks of thoughts are read only where
/// `thoughts` is set.
pub open spec fn reply_part_in(v: JsonView, thoughts: bool) -> Option<ReplyPartView> {
    let part = with_names(v, part_names(v, thoughts));
    if part is Object {
        match (
            optional_text(part, "text"@),
            if thoughts {
                thought_mark(part)
            } else {
                Some(false)
            },
        ) {
            (Some(text), Some(thought)) => Some(ReplyPartView { text, thought }),
            _ => None,
        }
    } else {
        None
    }
}

fn read_reply_part(v: &Json, thoughts: bool) -> (r: Option<GeminiResponsePart>)
    ensures
        match r {
            Some(p) => reply_part_in(v@, thoughts) == Some(p@),
            None => reply_part_in(v@, thoughts) is None,
        },
{
    let marked = match v {
        Json::Array(items) => thoughts && items.len() == 2,
        _ => false,
    };
    let names = if marked {
        vec!["text", "thought"]
    } else {
        vec!["text"]
    };
    assert(names@ =~= part_names(v@, thoughts));
    let part = named(v, names);
    match &part {
        Json::Object(_) => {
            let text = match read_optional_text(&part, "text") {
                Some(text) => text,
                None => {
                    return None;
                },
            };
            if !thoughts {
                return Some(GeminiResponsePart { text, thought: false });
            }
            match part.get("thought") {
                None => Some(GeminiResponsePart { text, thought: false }),
                Some(Json::Bool(thought)) => Some(GeminiResponsePart { text, thought: *thought }),
                Some(_) => None,
            }
        },
        _ => None,
    }
}

/// The pieces in a list; nothing where one has another shape.
pub open spec fn reply_parts_in(items: Seq<JsonView>, thoughts: bool) -> Option<
    Seq<ReplyPartView>,
>
    decreases items.len(),
{
    if items.len() == 0 {
        Some(Seq::empty())
    } else {
        match (reply_parts_in(items.drop_last(), thoughts), reply_part_in(items.last(), thoughts)) {
            (Some(front), Some(part)) => Some(front.push(part)),
            _ => None,
        }
    }
}

/// One piece of another shape spoils the list.
proof fn lemma_reply_parts_none(items: Seq<JsonView>, thoughts: bool, n: int)
    requires
        0 <= n <= items.len(),
        reply_parts_in(items.take(n), thoughts) is None,
    ensures
        reply_parts_in(items, thoughts) is None,
    decreases items.len() - n,
{
    if n < items.len() {
        assert(items.take(n + 1).drop_last() =~= items.take(n));
        lemma_reply_parts_none(items, thoughts, n + 1);
    } else {
        assert(items.take(n) =~= items);
    }
}

/// The pieces of the content of a candidate: none where the content or its pieces are absent or
/// null; nothing where they have another shape.
pub open spec fn candidate_parts(v: JsonView, thoughts: bool) -> Option<
    Option<Seq<ReplyPartView>>,
> {
    if v is Object {
        match v.field("content"@) {
            None => Some(None),
            Some(JsonView::Null) => Some(None),
            Some(found) => {
                let content = with_names(found, seq!["parts"]);
                if content is Object {
                    match content.field("parts"@) {
                        None => Some(None),
                        Some(JsonView::Null) => Some(None),
                        Some(JsonView::Array(items)) => match reply_parts_in(items, thoughts) {
                            Some(parts) => Some(Some(parts)),
                            None => None,
                        },
                        Some(_) => None,
                    }
                } else {
                    None
                }
            },
        }
    } else {
        None
    }
}

fn read_parts(items: &Vec<Json>, thoughts: bool) -> (r: Option<Vec<GeminiResponsePart>>)
    ensures
        match r {
            Some(list) => reply_parts_in(items_view(items@), thoughts) == Some(
                reply_parts_view(list@),
            ),
            None => reply_parts_in(items_view(items@), thoughts) is None,
        },
{
    let mut list: Vec<GeminiResponsePart> = Vec::new();
    assert(reply_parts_view(list@) =~= Seq::empty());
    let ghost all = items_view(items@);
    let mut i: usize = 0;
    while i < items.len()
        invariant
            i <= items@.len(),
            all == items_view(items@),
            reply_parts_in(all.take(i as int), thoughts) == Some(reply_parts_view(list@)),
        decreases items@.len() - i,
    {
        proof {
            assert(all.take(i + 1).drop_last() =~= all.take(i as int));
            assert(all.take(i + 1).last() == items@[i as int]@);
        }
        match read_reply_part(&items[i], thoughts) {
            Some(part) => {
                let ghost before = reply_parts_view(list@);
                list.push(part);
                assert(reply_parts_view(list@) =~= before.push(part@));
            },
            None => {
                proof {
                    lemma_reply_parts_none(all, thoughts, i + 1);
                }
                return None;
            },
        }
        i += 1;
    }
    assert(all.take(i as int) =~= all);
    Some(list)
}

/// The pieces of the content of a candidate.
pub fn read_candidate_parts(v: &Json, thoughts: bool) -> (r: Option<
    Option<Vec<GeminiResponsePart>>,
>)
    ensures
        match r {
            Some(parts) => candidate_parts(v@, thoughts) == Some(option_parts(parts)),
            None => candidate_parts(v@, thoughts) is None,
        },
{
    match v {
        Json::Object(_) => {
            let content = match v.get("content") {
                None => {
                    return Some(None);
                },
                Some(Json::Null) => {
                    return Some(None);
                },
                Some(found) => {
                    let names = vec!["parts"];
                    assert(names@ =~= seq!["parts"]);
                    named(found, names)
                },
            };
            match &content {
                Json::Object(_) => {},
                _ => {
                    return None;
                },
            }
            match content.get("parts") {
                None => Some(None),
                Some(Json::Null) => Some(None),
                Some(found) => match found.as_array() {
                    Some(items) => match read_parts(items, thoughts) {
                        Some(parts) => Some(Some(parts)),
                        None => None,
                    },
                    None => None,
                },
            }
        },
        _ => None,
    }
}

/// The text of an answer: its pieces without the thoughts, one behind the other.
pub open spec fn said_text(parts: Seq<ReplyPartView>) -> Seq<char>
    decreases parts.len(),
{
    if parts.len() == 0 {
        Seq::empty()
    } else {
        let front = said_text(parts.drop_last());
        match parts.last().text {
            Some(text) => if parts.last().thought {
                front
            } else {
                front + text
            },
            None => front,
        }
    }
}

/// The text of an answer, where it is more than white space.
pub open spec fn answer_in(parts: Option<Seq<ReplyPartView>>) -> Option<Seq<char>> {
    match parts {
        None => None,
        Some(list) => if is_blank(said_text(list)) {
            None
        } else {
            Some(said_text(list))
        },
    }
}

/// The text of an answer, where it is more than white space.
pub fn extract_gemini_text(parts: &Option<Vec<GeminiResponsePart>>) -> (r: Option<String>)
    ensures
        option_text(r) == answer_in(option_parts(*parts)),
{
    match parts {
        None => None,
        Some(list) => {
            let ghost all = reply_parts_view(list@);
            let mut said = String::new();
            let mut i: usize = 0;
            while i < list.len()
                invariant
                    i <= list@.len(),
                    all == reply_parts_view(list@),
                    said@ == said_text(all.take(i as int)),
                decreases list@.len() - i,
            {
                assert(all.take(i + 1).drop_last() =~= all.take(i as int));
                assert(all.take(i + 1).last() == list@[i as int]@);
                if !list[i].thought {
                    if let Some(text) = &list[i].text {
                        said.push_str(text);
                    }
                }
                i += 1;
            }
            assert(all.take(i as int) =~= all);
            if blank(&said) {
                None
            } else {
                Some(said)
            }
        },
    }
}

/// The pieces of each candidate in a list; nothing where one has another shape.
pub open spec fn all_candidates(items: Seq<JsonView>, thoughts: bool) -> Option<
    Seq<Option<Seq<ReplyPartView>>>,
>
    decreases items.len(),
{
    if items.len() == 0 {
        Some(Seq::empty())
    } else {
        match (
            all_candidates(items.drop_last(), thoughts),
            candidate_parts(with_names(items.last(), seq!["content"]), thoughts),
        ) {
            (Some(front), Some(parts)) => Some(front.push(parts)),
            _ => None,
        }
    }
}

/// One candidate of another shape spoils the list.
proof fn lemma_all_candidates_none(items: Seq<JsonView>, thoughts: bool, n: int)
    requires
        0 <= n <= items.len(),
        all_candidates(items.take(n), thoughts) is None,
    ensures
        all_candidates(items, thoughts) is None,
    decreases items.len() - n,
{
    if n < items.len() {
        assert(items.take(n + 1).drop_last() =~= items.take(n));
        lemma_all_candidates_none(items, thoughts, n + 1);
    } else {
        assert(items.take(n) =~= items);
    }
}

/// The answer in a reply; nothing where the reply has another shape.
pub open spec fn text_reply(v: JsonView, thoughts: bool) -> Option<Option<Seq<char>>> {
    let reply = with_names(v, seq!["candidates"]);
    if reply is Object {
        match reply.field("candidates"@) {
            None => Some(None),
            Some(JsonView::Null) => Some(None),
            Some(JsonView::Array(items)) => match all_candidates(items, thoughts) {
                Some(list) => Some(
                    if list.len() == 0 {
                        None
                    } else {
                        answer_in(list[0])
                    },
                ),
                None => None,
            },
            Some(_) => None,
        }
    } else {
        None
    }
}

/// The answer in a reply; nothing where the reply has another shape.
pub fn read_text_reply(v: &Json, thoughts: bool) -> (r: Option<Option<String>>)
    ensures
        match r {
            Some(text) => text_reply(v@, thoughts) == Some(option_text(text)),
            None => text_reply(v@, thoughts) is None,
        },
{
    let names = vec!["candidates"];
    assert(names@ =~= seq!["candidates"]);
    let reply = named(v, names);
    match &reply {
        Json::Object(_) => {},
        _ => {
            return None;
        },
    }
    let found = match reply.get("candidates") {
        None => {
            return Some(None);
        },
        Some(Json::Null) => {
            return Some(None);
        },
        Some(found) => found,
    };
    let items = match found.as_array() {
        Some(items) => items,
        None => {
            return None;
        },
    };
    let ghost all = items_view(items@);
    let mut answer: Option<String> = None;
    let ghost mut parsed = Seq::<Option<Seq<ReplyPartView>>>::empty();
    let mut i: usize = 0;
    while i < items.len()
        invariant
            i <= items@.len(),
            all == items_view(items@),
            reply@ == with_names(v@, seq!["candidates"]),
            reply@ is Object,
            reply@.field("candidates"@) == Some(JsonView::Array(all)),
            all_candidates(all.take(i as int), thoughts) == Some(parsed),
            parsed.len() == i,
            option_text(answer) == (if parsed.len() == 0 {
                None
            } else {
                answer_in(parsed[0])
            }),
        decreases items@.len() - i,
    {
        proof {
            assert(all.take(i + 1).drop_last() =~= all.take(i as int));
            assert(all.take(i + 1).last() == items@[i as int]@);
        }
        let names = vec!["content"];
        assert(names@ =~= seq!["content"]);
        match read_candidate_parts(&named(&items[i], names), thoughts) {
            Some(parts) => {
                if i == 0 {
                    answer = extract_gemini_text(&parts);
                }
                proof {
                    parsed = parsed.push(option_parts(parts));
                }
            },
            None => {
                proof {
                    lemma_all_candidates_none(all, thoughts, i + 1);
                }
                return None;
            },
        }
        i += 1;
    }
    assert(all.take(i as int) =~= all);
    Some(answer)
}

/// Why a reply with text is not accepted.
#[derive(Debug, Clone, Copy, PartialEq, Eq, Structural)]
pub enum TextReplyError {
    Malformed,
    Empty,
}

impl TextReplyError {
    /// What the error says, for the reply called `name`.
    pub fn message(&self, name: &str) -> (r: String)
        ensures
            r@ == (match *self {
                TextReplyError::Malformed => "解析 "@ + name@ + "失败"@,
                TextReplyError::Empty => name@ + "内容为空"@,
            }),
    {
        match self {
            TextReplyError::Malformed => {
                let mut r = "解析 ".to_owned();
                r.push_str(name);
                r.push_str("失败");
                r
            },
            TextReplyError::Empty => {
                let mut r = name.to_owned();
                r.push_str("内容为空");
                r
            },
        }
    }
}

/// The answer that a parsed reply holds.
pub open spec fn answer_of(parsed: Option<JsonView>, thoughts: bool) -> Result<
    Seq<char>,
    TextReplyError,
> {
    match parsed {
        None => Err(TextReplyError::Malformed),
        Some(v) => match text_reply(v, thoughts) {
            None => Err(TextReplyError::Malformed),
            Some(None) => Err(TextReplyError::Empty),
            Some(Some(text)) => Ok(text),
        },
    }
}

/// The answer that the text of a reply holds: a description of an image or the result of a search.
pub fn parse_text_reply(response_text: &str) -> (r: Result<String, TextReplyError>)
    ensures
        match r {
            Ok(text) => answer_of(json_parsed(response_text@), true) == Ok::<_, TextReplyError>(
                text@,
            ),
            Err(e) => answer_of(json_parsed(response_text@), true) == Err::<Seq<char>, _>(e),
        },
{
    match parse_json(response_text) {
        None => Err(TextReplyError::Malformed),
        Some(v) => match read_text_reply(&v, true) {
            None => Err(TextReplyError::Malformed),
            Some(None) => Err(TextReplyError::Empty),
            Some(Some(text)) => Ok(text),
        },
    }
}

/// A thought adds nothing to an answer.
pub proof fn law_thoughts_are_no_answer(parts: Seq<ReplyPartView>, thought: ReplyPartView)
    requires
        thought.thought,
    ensures
        said_text(parts.push(thought)) == said_text(parts),
{
    assert(parts.push(thought).drop_last() =~= parts);
}

/// The texts of turns with who says them, one behind the other.
pub open spec fn said_in(turns: Seq<TurnView>) -> Seq<(Seq<char>, Seq<char>)>
    decreases turns.len(),
{
    if turns.len() == 0 {
        Seq::empty()
    } else {
        said_in(turns.drop_last()) + Seq::new(
            turns.last().texts.len(),
            |k: int| (turns.last().role, turns.last().texts[k]),
        )
    }
}

/// Whether no two turns of the same speaker follow one another.
pub open spec fn speakers_alternate(turns: Seq<TurnView>) -> bool {
    forall|i: int|
        0 <= i < turns.len() - 1 ==> (#[trigger] turns[i]).role != turns[i + 1].role
}

proof fn lemma_with_turn(turns: Seq<TurnView>, role: Seq<char>, text: Seq<char>)
    ensures
        said_in(with_turn(turns, role, text)) =~= said_in(turns).push((role, text)),
        speakers_alternate(turns) ==> speakers_alternate(with_turn(turns, role, text)),
{
    let after = with_turn(turns, role, text);
    if turns.len() > 0 && turns.last().role == role {
        assert(after.drop_last() =~= turns.drop_last());
        if speakers_alternate(turns) {
            assert forall|i: int| 0 <= i < after.len() - 1 implies (#[trigger] after[i]).role
                != after[i + 1].role by {
                assert(turns[i].role != turns[i + 1].role);
            }
        }
    } else {
        assert(after.drop_last() =~= turns);
        if speakers_alternate(turns) {
            assert forall|i: int| 0 <= i < after.len() - 1 implies (#[trigger] after[i]).role
                != after[i + 1].role by {
                if i < turns.len() - 1 {
                    assert(turns[i].role != turns[i + 1].role);
                }
            }
        }
    }
}

/// Every text message adds its own text to what is said, under the role of who wrote it, and nothing
/// else; an instruction adds nothing to what is said and its text to the instructions. The speakers
/// take turns.
pub proof fn law_every_text_is_said(messages: Seq<ContextMessageView>)
    ensures
        speakers_alternate(message_turns(messages)),
        messages.len() == 0 ==> message_turns(messages).len() == 0 && instructions(messages).len()
            == 0,
        messages.len() > 0 ==> {
            let before = messages.drop_last();
            match messages.last().role {
                MessageRole::System => said_in(message_turns(messages)) == said_in(
                    message_turns(before),
                ) && instructions(messages) == instructions(before).push(messages.last().content),
                MessageRole::User => said_in(message_turns(messages)) == said_in(
                    message_turns(before),
                ).push(("user"@, messages.last().content)) && instructions(messages)
                    == instructions(before),
                MessageRole::Assistant => said_in(message_turns(messages)) == said_in(
                    message_turns(before),
                ).push(("model"@, messages.last().content)) && instructions(messages)
                    == instructions(before),
            }
        },
    decreases messages.len(),
{
    if messages.len() > 0 {
        let before = messages.drop_last();
        law_every_text_is_said(before);
        lemma_with_turn(message_turns(before), "user"@, messages.last().content);
        lemma_with_turn(message_turns(before), "model"@, messages.last().content);
    }
}

/// What is sent of turns names the speaker of each and holds its texts in order, and what is sent of
/// instructions holds every one of them.
pub proof fn law_turns_are_sent_whole(turns: Seq<TurnView>, list: Seq<Seq<char>>)
    ensures
        turns_json(turns).len() == turns.len(),
        forall|i: int|
            0 <= i < turns.len() ==> turns_json(turns)[i].text_field("role"@) == Some(
                (#[trigger] turns[i]).role,
            ) && (turns_json(turns)[i].array_field("parts"@) matches Some(parts) && parts.len()
                == turns[i].texts.len() && forall|k: int|
                0 <= k < parts.len() ==> (#[trigger] parts[k]).text_field("text"@) == Some(
                    turns[i].texts[k],
                )),
        list.len() == 0 ==> instruction_json(joined_instructions(list)) is None,
        list.len() > 0 ==> (instruction_json(joined_instructions(list)) matches Some(sent)
            && sent.array_field("parts"@) matches Some(parts) && parts.len() == 1 && (
        parts[0].text_field("text"@) matches Some(text) && forall|k: int|
            0 <= k < list.len() ==> has_text(text, #[trigger] list[k]))),
{
    reveal_strlit("role");
    reveal_strlit("parts");
    assert("role"@.len() == 4 && "parts"@.len() == 5);
    assert forall|i: int| 0 <= i < turns.len() implies turns_json(turns)[i].text_field("role"@)
        == Some((#[trigger] turns[i]).role) && (turns_json(turns)[i].array_field(
        "parts"@,
    ) matches Some(parts) && parts.len() == turns[i].texts.len() && forall|k: int|
        0 <= k < parts.len() ==> (#[trigger] parts[k]).text_field("text"@) == Some(
            turns[i].texts[k],
        )) by {
        let parts = Seq::new(turns[i].texts.len(), |k: int| text_part(turns[i].texts[k]));
        lemma_object2("role"@, JsonView::Text(turns[i].role), "parts"@, JsonView::Array(parts));
        assert forall|k: int| 0 <= k < parts.len() implies (#[trigger] parts[k]).text_field("text"@)
            == Some(turns[i].texts[k]) by {
            lemma_field_at(parts[k]->Object_0, "text"@, 0);
        }
    }
    if list.len() > 0 {
        let text = join_of(list, "\n\n"@);
        lemma_field_at(text_part(text)->Object_0, "text"@, 0);
        let parts = seq![text_part(text)];
        lemma_field_at(object1("parts"@, JsonView::Array(parts))->Object_0, "parts"@, 0);
        assert forall|k: int| 0 <= k < list.len() implies has_text(text, #[trigger] list[k]) by {
            lemma_joined(list, "\n\n"@, k);
        }
    }
}

/// The kind and the data of an image are the two texts of its data address, and the address is made
/// of them.
pub proof fn law_data_addresses_are_taken_apart(
    url: Seq<char>,
    mime_type: Seq<char>,
    data: Seq<char>,
)
    requires
        data_url_parts(url) == Ok::<_, DataUrlError>((mime_type, data)),
    ensures
        url == "data:"@ + mime_type + ";base64,"@ + data,
        !is_blank(mime_type),
        !is_blank(data),
{
    let prefix = "data:"@;
    let rest = url.skip(prefix.len() as int);
    assert(url.subrange(0, prefix.len() as int) == prefix);
    assert(url =~= prefix + rest);
    let sep = ";base64,"@;
    lemma_find_first(rest, sep, 0);
    let at = find_from(rest, sep, 0).unwrap();
    assert(rest.subrange(at, at + sep.len()) == sep);
    assert(rest =~= rest.take(at) + sep + rest.skip(at + sep.len()));
    assert(url =~= prefix + mime_type + sep + data);
}

/// A request to describe an image holds the question and the image.
pub proof fn law_vision_request_holds_question_and_image(
    max_tokens: Option<i32>,
    mime_type: Seq<char>,
    data: Seq<char>,
    prompt: Seq<char>,
)
    ensures
        vision_request(max_tokens, mime_type, data, prompt).array_field(
            "contents"@,
        ) matches Some(turns) && turns.len() == 1 && turns[0].text_field("role"@) == Some("user"@)
            && (turns[0].array_field("parts"@) matches Some(parts) && parts.len() == 2
            && parts[0].text_field("text"@) == Some(prompt) && parts[1].nested_text(
            "inlineData"@,
            "mimeType"@,
        ) == Some(mime_type) && parts[1].nested_text("inlineData"@, "data"@) == Some(data)),
{
    reveal_strlit("role");
    reveal_strlit("parts");
    reveal_strlit("contents");
    reveal_strlit("generationConfig");
    reveal_strlit("mimeType");
    reveal_strlit("data");
    assert("role"@.len() == 4 && "parts"@.len() == 5 && "contents"@.len() == 8);
    assert("generationConfig"@.len() == 16 && "mimeType"@.len() == 8 && "data"@.len() == 4);
    let request = vision_request(max_tokens, mime_type, data, prompt);
    lemma_field_at(request->Object_0, "contents"@, 0);
    let turn = request.array_field("contents"@).unwrap()[0];
    lemma_field_at(turn->Object_0, "role"@, 0);
    lemma_field_at(turn->Object_0, "parts"@, 1);
    let parts = turn.array_field("parts"@).unwrap();
    lemma_field_at(parts[0]->Object_0, "text"@, 0);
    lemma_field_at(parts[1]->Object_0, "inlineData"@, 0);
    lemma_object2("mimeType"@, JsonView::Text(mime_type), "data"@, JsonView::Text(data));
}

} // verus!
