//! The Google AI Studio interface, with web search backed by sources.

use vstd::prelude::*;

use crate::ai_provider::chat_wire::{
    optional_count, optional_text, read_optional_count, read_optional_text,
};
use crate::ai_provider::gemini::{
    answer_in, base_url_of, build_gemini_chat_contents, candidate_parts, chat_turns, content_url,
    content_url_for, data_url_parts, extract_gemini_text, instruction_json, instruction_to_json,
    instructions, joined_instructions, message_turns, normalized_base_url, option_parts,
    parse_data_url, read_candidate_parts, turns_json, turns_to_json, DataUrlError,
    GeminiResponsePart, ReplyPartView, TextReplyError,
};
use crate::ai_provider::{
    context_view, ChatResponse, ChatResponseView, ChatUsage, ContextMessage, ContextMessageView,
    ReasoningState, ReasoningStateView,
};
use crate::json::{
    int_view, items_view, json_parsed, lemma_field_at, lemma_no_field, named, object1, object2,
    option_json, option_text, parse_json, with_field, with_names, Fields, Items, Json, JsonView,
};
use crate::text::{chars_of, is_blank, join, join_of, text_between, texts, trim, trim_of};

verus! {

/// What a provider of this kind is set up with.
#[derive(Debug, PartialEq, Eq)]
pub struct GoogleAIStudioProvider {
    pub api_key: String,
    pub base_url: String,
    pub model: String,
    pub max_tokens: i32,
}

impl GoogleAIStudioProvider {
    pub fn new(api_key: String, base_url: String, model: String, max_tokens: i32) -> (r: Self)
        ensures
            r.api_key@ == api_key@,
            r.base_url@ == base_url_of(base_url@),
            r.model@ == model@,
            r.max_tokens == max_tokens,
    {
        GoogleAIStudioProvider {
            api_key,
            base_url: normalized_base_url(&base_url),
            model,
            max_tokens,
        }
    }

    /// The address at which the model generates content.
    pub fn generate_content_url(&self) -> (r: String)
        ensures
            r@ == content_url(self.base_url@, self.model@),
    {
        content_url_for(&self.base_url, &self.model)
    }
}

/// A chat request: the reply is to be JSON.
pub open spec fn chat_request(messages: Seq<ContextMessageView>, max_tokens: i32) -> JsonView {
    JsonView::Object(
        with_field(
            Seq::empty(),
            "system_instruction"@,
            instruction_json(joined_instructions(instructions(messages))),
        ).push(("contents"@, JsonView::Array(turns_json(chat_turns(messages))))).push(
            (
                "generationConfig"@,
                object2(
                    "maxOutputTokens"@,
                    int_view(max_tokens as int),
                    "response_mime_type"@,
                    JsonView::Text("application/json"@),
                ),
            ),
        ),
    )
}

/// A chat request: the reply is to be JSON.
pub fn build_chat_request(request_messages: &Vec<ContextMessage>, max_tokens: i32) -> (r: Json)
    ensures
        r@ == chat_request(context_view(request_messages@), max_tokens),
{
    let (system, contents) = build_gemini_chat_contents(request_messages);
    let mut generation = Fields::new();
    generation.put("maxOutputTokens", Json::integer(max_tokens as i64));
    generation.put_text("response_mime_type", "application/json");
    let mut fields = Fields::new();
    fields.put_some("system_instruction", instruction_to_json(&system));
    fields.put("contents", turns_to_json(&contents));
    fields.put("generationConfig", generation.done());
    fields.done()
}

/// A request with one user turn of the given pieces.
pub open spec fn single_turn(parts: Seq<JsonView>) -> JsonView {
    JsonView::Array(
        seq![object2("role"@, JsonView::Text("user"@), "parts"@, JsonView::Array(parts))],
    )
}

/// A request to describe an image of a type and its data.
pub open spec fn vision_request(
    max_tokens: i32,
    mime_type: Seq<char>,
    data: Seq<char>,
    prompt: Seq<char>,
) -> JsonView {
    object2(
        "contents"@,
        single_turn(
            Seq::empty().push(object1("text"@, JsonView::Text(prompt))).push(
                object1(
                    "inline_data"@,
                    object2(
                        "mime_type"@,
                        JsonView::Text(mime_type),
                        "data"@,
                        JsonView::Text(data),
                    ),
                ),
            ),
        ),
        "generationConfig"@,
        object1("maxOutputTokens"@, int_view(max_tokens as int)),
    )
}

/// A request to describe an image.
pub fn build_vision_request(max_tokens: i32, image_data_url: &str, prompt: &str) -> (r: Result<
    Json,
    DataUrlError,
>)
    ensures
        match r {
            Ok(body) => data_url_parts(image_data_url@) matches Ok((mime_type, data)) && body@
                == vision_request(max_tokens, mime_type, data, prompt@),
            Err(e) => data_url_parts(image_data_url@) == Err::<(Seq<char>, Seq<char>), _>(e),
        },
{
    let image = match parse_data_url(image_data_url) {
        Ok(image) => image,
        Err(e) => {
            return Err(e);
        },
    };
    let mut text = Fields::new();
    text.put_text("text", prompt);
    let mut data = Fields::new();
    data.put_text("mime_type", &image.mime_type);
    data.put_text("data", &image.data);
    let mut picture = Fields::new();
    picture.put("inline_data", data.done());
    let mut parts = Items::new();
    parts.push(text.done());
    parts.push(picture.done());
    let mut content = Fields::new();
    content.put_text("role", "user");
    content.put("parts", parts.done());
    let mut contents = Items::new();
    contents.push(content.done());
    let mut generation = Fields::new();
    generation.put("maxOutputTokens", Json::integer(max_tokens as i64));
    let mut fields = Fields::new();
    fields.put("contents", contents.done());
    fields.put("generationConfig", generation.done());
    Ok(fields.done())
}

/// How a search is asked for, before the question itself.
pub const SEARCH_PROMPT: &'static str = "你是一个给角色扮演聊天机器人使用的互联网查询工具。请使用 Google Search 查询实时信息，并给出简短、可靠、适合交给角色继续聊天使用的中文答案。\n要求：\n1. 直接回答查询问题，不要写成客服或长篇报告。\n2. 如果信息不确定，明确说明不确定。\n3. 控制在 600 字以内。\n4. 如果有关键来源，答案中可以简短提及来源名称。\n\n查询：";

/// A request to search the web.
pub open spec fn search_request(max_tokens: i32, query: Seq<char>) -> JsonView {
    JsonView::Object(
        Seq::empty().push(
            (
                "contents"@,
                single_turn(seq![object1("text"@, JsonView::Text(SEARCH_PROMPT@ + query))]),
            ),
        ).push(
            (
                "tools"@,
                JsonView::Array(
                    seq![
                        object2(
                            "google_search"@,
                            JsonView::Object(Seq::empty()),
                            "url_context"@,
                            JsonView::Object(Seq::empty()),
                        ),
                    ],
                ),
            ),
        ).push(
            (
                "generationConfig"@,
                object1("maxOutputTokens"@, int_view(max_tokens as int)),
            ),
        ),
    )
}

/// A request to search the web.
pub fn build_search_request(max_tokens: i32, query: &str) -> (r: Json)
    ensures
        r@ == search_request(max_tokens, query@),
{
    let mut prompt = SEARCH_PROMPT.to_owned();
    prompt.push_str(query);
    let mut text = Fields::new();
    text.put_text("text", &prompt);
    let mut parts = Items::new();
    parts.push(text.done());
    let mut content = Fields::new();
    content.put_text("role", "user");
    content.put("parts", parts.done());
    let mut contents = Items::new();
    contents.push(content.done());
    let mut tool = Fields::new();
    tool.put("google_search", Fields::new().done());
    tool.put("url_context", Fields::new().done());
    let mut tools = Items::new();
    tools.push(tool.done());
    let mut generation = Fields::new();
    generation.put("maxOutputTokens", Json::integer(max_tokens as i64));
    let mut fields = Fields::new();
    fields.put("contents", contents.done());
    fields.put("tools", tools.done());
    fields.put("generationConfig", generation.done());
    fields.done()
}

/// A page that a search rests on.
#[derive(Debug, PartialEq, Eq)]
pub struct GeminiGroundingWeb {
    pub uri: Option<String>,
    pub title: Option<String>,
}

/// What a page holds.
pub struct WebView {
    pub uri: Option<Seq<char>>,
    pub title: Option<Seq<char>>,
}

/// What an optional page holds.
pub open spec fn option_web(web: Option<GeminiGroundingWeb>) -> Option<WebView> {
    match web {
        Some(w) => Some(WebView { uri: option_text(w.uri), title: option_text(w.title) }),
        None => None,
    }
}

/// The pages of a list.
pub open spec fn webs_view(list: Seq<Option<GeminiGroundingWeb>>) -> Seq<Option<WebView>> {
    Seq::new(list.len(), |i: int| option_web(list[i]))
}

/// What a search rests on.
#[derive(Debug, PartialEq, Eq)]
pub struct GeminiGroundingMetadata {
    pub web_search_queries: Vec<String>,
    pub grounding_chunks: Vec<Option<GeminiGroundingWeb>>,
}

/// What the grounds of a search hold.
pub struct GroundingView {
    pub queries: Seq<Seq<char>>,
    pub chunks: Seq<Option<WebView>>,
}

impl View for GeminiGroundingMetadata {
    type V = GroundingView;

    open spec fn view(&self) -> GroundingView {
        GroundingView {
            queries: texts(self.web_search_queries@),
            chunks: webs_view(self.grounding_chunks@),
        }
    }
}

/// What optional grounds hold.
pub open spec fn option_grounding(g: Option<GeminiGroundingMetadata>) -> Option<GroundingView> {
    match g {
        Some(m) => Some(m@),
        None => None,
    }
}

/// One of the answers in a reply.
#[derive(Debug, PartialEq, Eq)]
pub struct GeminiCandidate {
    pub parts: Option<Vec<GeminiResponsePart>>,
    pub finish_reason: Option<String>,
    pub grounding_metadata: Option<GeminiGroundingMetadata>,
}

/// What an answer holds.
pub struct CandidateView {
    pub parts: Option<Seq<ReplyPartView>>,
    pub finish_reason: Option<Seq<char>>,
    pub grounding: Option<GroundingView>,
}

impl View for GeminiCandidate {
    type V = CandidateView;

    open spec fn view(&self) -> CandidateView {
        CandidateView {
            parts: option_parts(self.parts),
            finish_reason: option_text(self.finish_reason),
            grounding: option_grounding(self.grounding_metadata),
        }
    }
}

/// The answers of a list.
pub open spec fn candidates_view(list: Seq<GeminiCandidate>) -> Seq<CandidateView> {
    Seq::new(list.len(), |i: int| list[i]@)
}

/// A reply.
#[derive(Debug, PartialEq, Eq)]
pub struct GeminiGenerateContentResponse {
    pub candidates: Vec<GeminiCandidate>,
    pub usage: Option<ChatUsage>,
}

/// What a reply holds.
pub struct ReplyView {
    pub candidates: Seq<CandidateView>,
    pub usage: Option<ChatUsage>,
}

impl View for GeminiGenerateContentResponse {
    type V = ReplyView;

    open spec fn view(&self) -> ReplyView {
        ReplyView { candidates: candidates_view(self.candidates@), usage: self.usage }
    }
}

/// The texts in a list; nothing where an item is no text.
pub open spec fn all_texts(items: Seq<JsonView>) -> Option<Seq<Seq<char>>>
    decreases items.len(),
{
    if items.len() == 0 {
        Some(Seq::empty())
    } else {
        match (all_texts(items.drop_last()), items.last().chars()) {
            (Some(front), Some(text)) => Some(front.push(text)),
            _ => None,
        }
    }
}

proof fn lemma_all_texts_none(items: Seq<JsonView>, n: int)
    requires
        0 <= n <= items.len(),
        all_texts(items.take(n)) is None,
    ensures
        all_texts(items) is None,
    decreases items.len() - n,
{
    if n < items.len() {
        assert(items.take(n + 1).drop_last() =~= items.take(n));
        lemma_all_texts_none(items, n + 1);
    } else {
        assert(items.take(n) =~= items);
    }
}

fn read_texts(items: &Vec<Json>) -> (r: Option<Vec<String>>)
    ensures
        match r {
            Some(list) => all_texts(items_view(items@)) == Some(texts(list@)),
            None => all_texts(items_view(items@)) is None,
        },
{
    let ghost all = items_view(items@);
    let mut list: Vec<String> = Vec::new();
    assert(texts(list@) =~= Seq::empty());
    let mut i: usize = 0;
    while i < items.len()
        invariant
            i <= items@.len(),
            all == items_view(items@),
            all_texts(all.take(i as int)) == Some(texts(list@)),
        decreases items@.len() - i,
    {
        proof {
            assert(all.take(i + 1).drop_last() =~= all.take(i as int));
            assert(all.take(i + 1).last() == items@[i as int]@);
        }
        match items[i].as_text() {
            Some(text) => {
                let ghost before = texts(list@);
                list.push(text.clone());
                assert(texts(list@) =~= before.push(text@));
            },
            None => {
                proof {
                    lemma_all_texts_none(all, i + 1);
                }
                return None;
            },
        }
        i += 1;
    }
    assert(all.take(i as int) =~= all);
    Some(list)
}

/// The page of a chunk; nothing where it has another shape.
pub open spec fn chunk_in(v: JsonView) -> Option<Option<WebView>> {
    let chunk = with_names(v, seq!["web"]);
    if chunk is Object {
        match chunk.field("web"@) {
            None => Some(None),
            Some(JsonView::Null) => Some(None),
            Some(found) => {
                let web = with_names(found, seq!["uri", "title"]);
                if web is Object {
                    match (optional_text(web, "uri"@), optional_text(web, "title"@)) {
                        (Some(uri), Some(title)) => Some(Some(WebView { uri, title })),
                        _ => None,
                    }
                } else {
                    None
                }
            },
        }
    } else {
        None
    }
}

fn read_chunk(v: &Json) -> (r: Option<Option<GeminiGroundingWeb>>)
    ensures
        match r {
            Some(web) => chunk_in(v@) == Some(option_web(web)),
            None => chunk_in(v@) is None,
        },
{
    let names = vec!["web"];
    assert(names@ =~= seq!["web"]);
    let chunk = named(v, names);
    match &chunk {
        Json::Object(_) => {},
        _ => {
            return None;
        },
    }
    let web = match chunk.get("web") {
        None => {
            return Some(None);
        },
        Some(Json::Null) => {
            return Some(None);
        },
        Some(found) => {
            let names = vec!["uri", "title"];
            assert(names@ =~= seq!["uri", "title"]);
            named(found, names)
        },
    };
    match &web {
        Json::Object(_) => {},
        _ => {
            return None;
        },
    }
    match (read_optional_text(&web, "uri"), read_optional_text(&web, "title")) {
        (Some(uri), Some(title)) => Some(Some(GeminiGroundingWeb { uri, title })),
        _ => None,
    }
}

/// The pages of chunks; nothing where one has another shape.
pub open spec fn all_chunks(items: Seq<JsonView>) -> Option<Seq<Option<WebView>>>
    decreases items.len(),
{
    if items.len() == 0 {
        Some(Seq::empty())
    } else {
        match (all_chunks(items.drop_last()), chunk_in(items.last())) {
            (Some(front), Some(web)) => Some(front.push(web)),
            _ => None,
        }
    }
}

proof fn lemma_all_chunks_none(items: Seq<JsonView>, n: int)
    requires
        0 <= n <= items.len(),
        all_chunks(items.take(n)) is None,
    ensures
        all_chunks(items) is None,
    decreases items.len() - n,
{
    if n < items.len() {
        assert(items.take(n + 1).drop_last() =~= items.take(n));
        lemma_all_chunks_none(items, n + 1);
    } else {
        assert(items.take(n) =~= items);
    }
}

fn read_chunks(items: &Vec<Json>) -> (r: Option<Vec<Option<GeminiGroundingWeb>>>)
    ensures
        match r {
            Some(list) => all_chunks(items_view(items@)) == Some(webs_view(list@)),
            None => all_chunks(items_view(items@)) is None,
        },
{
    let ghost all = items_view(items@);
    let mut list: Vec<Option<GeminiGroundingWeb>> = Vec::new();
    assert(webs_view(list@) =~= Seq::empty());
    let mut i: usize = 0;
    while i < items.len()
        invariant
            i <= items@.len(),
            all == items_view(items@),
            all_chunks(all.take(i as int)) == Some(webs_view(list@)),
        decreases items@.len() - i,
    {
        proof {
            assert(all.take(i + 1).drop_last() =~= all.take(i as int));
            assert(all.take(i + 1).last() == items@[i as int]@);
        }
        match read_chunk(&items[i]) {
            Some(web) => {
                let ghost before = webs_view(list@);
                list.push(web);
                assert(webs_view(list@) =~= before.push(option_web(web)));
            },
            None => {
                proof {
                    lemma_all_chunks_none(all, i + 1);
                }
                return None;
            },
        }
        i += 1;
    }
    assert(all.take(i as int) =~= all);
    Some(list)
}

/// The items of a list that may be absent or null, none in that case; nothing where the field
/// holds something else.
pub open spec fn optional_items(v: JsonView, key: Seq<char>) -> Option<Seq<JsonView>> {
    match v.field(key) {
        None => Some(Seq::empty()),
        Some(JsonView::Null) => Some(Seq::empty()),
        Some(JsonView::Array(items)) => Some(items),
        Some(_) => None,
    }
}

/// What a search rests on; nothing where it has another shape.
pub open spec fn grounding_in(v: JsonView) -> Option<Option<GroundingView>> {
    match v.field("groundingMetadata"@) {
        None => Some(None),
        Some(JsonView::Null) => Some(None),
        Some(found) => {
            let grounds = with_names(found, seq!["webSearchQueries", "groundingChunks"]);
            if grounds is Object {
                match (
                    optional_items(grounds, "webSearchQueries"@),
                    optional_items(grounds, "groundingChunks"@),
                ) {
                    (Some(queries), Some(chunks)) => match (
                        all_texts(queries),
                        all_chunks(chunks),
                    ) {
                        (Some(queries), Some(chunks)) => Some(
                            Some(GroundingView { queries, chunks }),
                        ),
                        _ => None,
                    },
                    _ => None,
                }
            } else {
                None
            }
        },
    }
}

fn read_queries(found: &Json) -> (r: Option<Vec<String>>)
    ensures
        match r {
            Some(list) => optional_items(found@, "webSearchQueries"@) matches Some(items)
                && all_texts(items) == Some(texts(list@)),
            None => optional_items(found@, "webSearchQueries"@) matches Some(items) ==> all_texts(
                items,
            ) is None,
        },
{
    match found.get("webSearchQueries") {
        None => {
            let list: Vec<String> = Vec::new();
            assert(texts(list@) =~= Seq::empty());
            Some(list)
        },
        Some(Json::Null) => {
            let list: Vec<String> = Vec::new();
            assert(texts(list@) =~= Seq::empty());
            Some(list)
        },
        Some(v) => match v.as_array() {
            Some(items) => read_texts(items),
            None => None,
        },
    }
}

fn read_sources(found: &Json) -> (r: Option<Vec<Option<GeminiGroundingWeb>>>)
    ensures
        match r {
            Some(list) => optional_items(found@, "groundingChunks"@) matches Some(items)
                && all_chunks(items) == Some(webs_view(list@)),
            None => optional_items(found@, "groundingChunks"@) matches Some(items) ==> all_chunks(
                items,
            ) is None,
        },
{
    match found.get("groundingChunks") {
        None => {
            let list: Vec<Option<GeminiGroundingWeb>> = Vec::new();
            assert(webs_view(list@) =~= Seq::empty());
            Some(list)
        },
        Some(Json::Null) => {
            let list: Vec<Option<GeminiGroundingWeb>> = Vec::new();
            assert(webs_view(list@) =~= Seq::empty());
            Some(list)
        },
        Some(v) => match v.as_array() {
            Some(items) => read_chunks(items),
            None => None,
        },
    }
}

fn read_grounding(v: &Json) -> (r: Option<Option<GeminiGroundingMetadata>>)
    ensures
        match r {
            Some(g) => grounding_in(v@) == Some(option_grounding(g)),
            None => grounding_in(v@) is None,
        },
{
    let grounds = match v.get("groundingMetadata") {
        None => {
            return Some(None);
        },
        Some(Json::Null) => {
            return Some(None);
        },
        Some(found) => {
            let names = vec!["webSearchQueries", "groundingChunks"];
            assert(names@ =~= seq!["webSearchQueries", "groundingChunks"]);
            named(found, names)
        },
    };
    match &grounds {
        Json::Object(_) => {},
        _ => {
            return None;
        },
    }
    match (read_queries(&grounds), read_sources(&grounds)) {
        (Some(web_search_queries), Some(grounding_chunks)) => Some(
            Some(GeminiGroundingMetadata { web_search_queries, grounding_chunks }),
        ),
        _ => None,
    }
}

/// The names of the fields of an answer, in the order in which a list holds them.
pub open spec fn candidate_names() -> Seq<&'static str> {
    seq!["content", "finishReason", "groundingMetadata"]
}

/// An answer; nothing where it has another shape.
pub open spec fn candidate_in(v: JsonView) -> Option<CandidateView> {
    let candidate = with_names(v, candidate_names());
    match (
        candidate_parts(candidate, false),
        optional_text(candidate, "finishReason"@),
        grounding_in(candidate),
    ) {
        (Some(parts), Some(finish_reason), Some(grounding)) => Some(
            CandidateView { parts, finish_reason, grounding },
        ),
        _ => None,
    }
}

fn read_candidate(v: &Json) -> (r: Option<GeminiCandidate>)
    ensures
        match r {
            Some(c) => candidate_in(v@) == Some(c@),
            None => candidate_in(v@) is None,
        },
{
    let names = vec!["content", "finishReason", "groundingMetadata"];
    assert(names@ =~= candidate_names());
    let candidate = named(v, names);
    match (
        read_candidate_parts(&candidate, false),
        read_optional_text(&candidate, "finishReason"),
        read_grounding(&candidate),
    ) {
        (Some(parts), Some(finish_reason), Some(grounding_metadata)) => Some(
            GeminiCandidate { parts, finish_reason, grounding_metadata },
        ),
        _ => None,
    }
}

/// The answers in a list; nothing where one has another shape.
pub open spec fn candidates_in(items: Seq<JsonView>) -> Option<Seq<CandidateView>>
    decreases items.len(),
{
    if items.len() == 0 {
        Some(Seq::empty())
    } else {
        match (candidates_in(items.drop_last()), candidate_in(items.last())) {
            (Some(front), Some(c)) => Some(front.push(c)),
            _ => None,
        }
    }
}

proof fn lemma_candidates_none(items: Seq<JsonView>, n: int)
    requires
        0 <= n <= items.len(),
        candidates_in(items.take(n)) is None,
    ensures
        candidates_in(items) is None,
    decreases items.len() - n,
{
    if n < items.len() {
        assert(items.take(n + 1).drop_last() =~= items.take(n));
        lemma_candidates_none(items, n + 1);
    } else {
        assert(items.take(n) =~= items);
    }
}

fn read_candidates(items: &Vec<Json>) -> (r: Option<Vec<GeminiCandidate>>)
    ensures
        match r {
            Some(list) => candidates_in(items_view(items@)) == Some(candidates_view(list@)),
            None => candidates_in(items_view(items@)) is None,
        },
{
    let ghost all = items_view(items@);
    let mut list: Vec<GeminiCandidate> = Vec::new();
    assert(candidates_view(list@) =~= Seq::empty());
    let mut i: usize = 0;
    while i < items.len()
        invariant
            i <= items@.len(),
            all == items_view(items@),
            candidates_in(all.take(i as int)) == Some(candidates_view(list@)),
        decreases items@.len() - i,
    {
        proof {
            assert(all.take(i + 1).drop_last() =~= all.take(i as int));
            assert(all.take(i + 1).last() == items@[i as int]@);
        }
        match read_candidate(&items[i]) {
            Some(c) => {
                let ghost before = candidates_view(list@);
                list.push(c);
                assert(candidates_view(list@) =~= before.push(c@));
            },
            None => {
                proof {
                    lemma_candidates_none(all, i + 1);
                }
                return None;
            },
        }
        i += 1;
    }
    assert(all.take(i as int) =~= all);
    Some(list)
}

/// The names of the token counts of a reply, in the order in which a list holds them.
pub open spec fn count_names() -> Seq<&'static str> {
    seq!["promptTokenCount", "candidatesTokenCount", "totalTokenCount"]
}

/// The token counts of a reply; nothing where they have another shape.
pub open spec fn usage_in(v: JsonView) -> Option<Option<ChatUsage>> {
    match v.field("usageMetadata"@) {
        None => Some(None),
        Some(JsonView::Null) => Some(None),
        Some(found) => {
            let usage = with_names(found, count_names());
            if usage is Object {
                match (
                    optional_count(usage, "promptTokenCount"@),
                    optional_count(usage, "candidatesTokenCount"@),
                    optional_count(usage, "totalTokenCount"@),
                ) {
                    (Some(prompt_tokens), Some(completion_tokens), Some(total_tokens)) => Some(
                        Some(ChatUsage { prompt_tokens, completion_tokens, total_tokens }),
                    ),
                    _ => None,
                }
            } else {
                None
            }
        },
    }
}

fn read_usage_metadata(v: &Json) -> (r: Option<Option<ChatUsage>>)
    ensures
        r == usage_in(v@),
{
    let usage = match v.get("usageMetadata") {
        None => {
            return Some(None);
        },
        Some(Json::Null) => {
            return Some(None);
        },
        Some(found) => {
            let names = vec!["promptTokenCount", "candidatesTokenCount", "totalTokenCount"];
            assert(names@ =~= count_names());
            named(found, names)
        },
    };
    match &usage {
        Json::Object(_) => {},
        _ => {
            return None;
        },
    }
    match (
        read_optional_count(&usage, "promptTokenCount"),
        read_optional_count(&usage, "candidatesTokenCount"),
        read_optional_count(&usage, "totalTokenCount"),
    ) {
        (Some(prompt_tokens), Some(completion_tokens), Some(total_tokens)) => Some(
            Some(ChatUsage { prompt_tokens, completion_tokens, total_tokens }),
        ),
        _ => None,
    }
}

/// A reply; nothing where it has another shape. Absent answers are no answers.
pub open spec fn reply_in(v: JsonView) -> Option<ReplyView> {
    let reply = with_names(v, seq!["candidates", "usageMetadata"]);
    if reply is Object {
        match (optional_items(reply, "candidates"@), usage_in(reply)) {
            (Some(items), Some(usage)) => match candidates_in(items) {
                Some(candidates) => Some(ReplyView { candidates, usage }),
                None => None,
            },
            _ => None,
        }
    } else {
        None
    }
}

/// A reply; nothing where it has another shape.
pub fn read_reply(v: &Json) -> (r: Option<GeminiGenerateContentResponse>)
    ensures
        match r {
            Some(reply) => reply_in(v@) == Some(reply@),
            None => reply_in(v@) is None,
        },
{
    let names = vec!["candidates", "usageMetadata"];
    assert(names@ =~= seq!["candidates", "usageMetadata"]);
    let reply = named(v, names);
    match &reply {
        Json::Object(_) => {},
        _ => {
            return None;
        },
    }
    let usage = match read_usage_metadata(&reply) {
        Some(usage) => usage,
        None => {
            return None;
        },
    };
    let none: Vec<GeminiCandidate> = Vec::new();
    assert(candidates_view(none@) =~= Seq::empty());
    match reply.get("candidates") {
        None => Some(GeminiGenerateContentResponse { candidates: none, usage }),
        Some(Json::Null) => Some(GeminiGenerateContentResponse { candidates: none, usage }),
        Some(found) => match found.as_array() {
            Some(items) => match read_candidates(items) {
                Some(candidates) => Some(GeminiGenerateContentResponse { candidates, usage }),
                None => None,
            },
            None => None,
        },
    }
}

/// The text of the first answer of a reply, where it is more than white space.
pub open spec fn first_answer(reply: ReplyView) -> Option<Seq<char>> {
    if reply.candidates.len() == 0 {
        None
    } else {
        answer_in(reply.candidates[0].parts)
    }
}

/// The text of the first answer of a reply, where it is more than white space.
pub fn first_answer_text(response: &GeminiGenerateContentResponse) -> (r: Option<String>)
    ensures
        option_text(r) == first_answer(response@),
{
    if response.candidates.len() == 0 {
        None
    } else {
        assert(response@.candidates[0] == response.candidates@[0]@);
        extract_gemini_text(&response.candidates[0].parts)
    }
}

/// What a reply is read as.
pub open spec fn chat_reply_of(parsed: Option<JsonView>, model: Seq<char>) -> Result<
    ChatResponseView,
    TextReplyError,
> {
    match parsed {
        None => Err(TextReplyError::Malformed),
        Some(raw) => match reply_in(raw) {
            None => Err(TextReplyError::Malformed),
            Some(reply) => match first_answer(reply) {
                None => Err(TextReplyError::Empty),
                Some(content) => Ok(
                    ChatResponseView {
                        content,
                        reasoning: ReasoningStateView { display_text: None, replay: None },
                        finish_reason: reply.candidates[0].finish_reason,
                        id: None,
                        model: Some(model),
                        usage: reply.usage,
                        raw_response: raw,
                    },
                ),
            },
        },
    }
}

/// What a parsed reply is read as.
pub fn read_chat_reply(parsed: Option<Json>, model: &str) -> (r: Result<
    ChatResponse,
    TextReplyError,
>)
    ensures
        match r {
            Ok(reply) => chat_reply_of(option_json(parsed), model@) == Ok::<_, TextReplyError>(
                reply@,
            ),
            Err(e) => chat_reply_of(option_json(parsed), model@) == Err::<ChatResponseView, _>(e),
        },
{
    let raw_response = match parsed {
        None => {
            return Err(TextReplyError::Malformed);
        },
        Some(raw) => raw,
    };
    let reply = match read_reply(&raw_response) {
        None => {
            return Err(TextReplyError::Malformed);
        },
        Some(reply) => reply,
    };
    match first_answer_text(&reply) {
        None => Err(TextReplyError::Empty),
        Some(content) => {
            assert(reply@.candidates[0] == reply.candidates@[0]@);
            let finish_reason = reply.candidates[0].finish_reason.clone();
            Ok(
                ChatResponse {
                    content,
                    reasoning: ReasoningState { display_text: None, replay: None },
                    finish_reason,
                    id: None,
                    model: Some(model.to_owned()),
                    usage: reply.usage,
                    raw_response,
                },
            )
        },
    }
}

/// What the text of a reply is read as.
pub fn parse_chat_reply(response_text: &str, model: &str) -> (r: Result<
    ChatResponse,
    TextReplyError,
>)
    ensures
        match r {
            Ok(reply) => chat_reply_of(json_parsed(response_text@), model@) == Ok::<
                _,
                TextReplyError,
            >(reply@),
            Err(e) => chat_reply_of(json_parsed(response_text@), model@) == Err::<
                ChatResponseView,
                _,
            >(e),
        },
{
    read_chat_reply(parse_json(response_text), model)
}

/// The first characters of a text, with dots behind them where it is longer.
pub open spec fn limited(text: Seq<char>, max_chars: int) -> Seq<char> {
    if text.len() <= max_chars {
        text
    } else {
        text.take(max_chars) + "..."@
    }
}

/// The first characters of a text, with dots behind them where it is longer.
pub fn limit_chars(text: &str, max_chars: usize) -> (r: String)
    ensures
        r@ == limited(text@, max_chars as int),
{
    let chars = chars_of(text);
    if chars.len() <= max_chars {
        text.to_owned()
    } else {
        let mut r = text_between(&chars, 0, max_chars);
        assert(r@ =~= text@.take(max_chars as int));
        r.push_str("...");
        r
    }
}

/// A source as it is listed: nothing where it has no address, and a fixed word where it has no
/// title.
pub open spec fn source_line(web: Option<WebView>) -> Option<Seq<char>> {
    match web {
        None => None,
        Some(w) => match w.uri {
            None => None,
            Some(uri) => if is_blank(uri) {
                None
            } else {
                let title = match w.title {
                    Some(title) => if is_blank(title) {
                        "来源"@
                    } else {
                        trim_of(title)
                    },
                    None => "来源"@,
                };
                Some(title + "："@ + trim_of(uri))
            },
        },
    }
}

fn source_line_text(web: &Option<GeminiGroundingWeb>) -> (r: Option<String>)
    ensures
        option_text(r) == source_line(option_web(*web)),
{
    match web {
        None => None,
        Some(w) => match &w.uri {
            None => None,
            Some(uri) => {
                let address = trim(uri);
                if address.is_empty() {
                    return None;
                }
                let mut line = match &w.title {
                    Some(title) => {
                        let shown = trim(title);
                        if shown.is_empty() {
                            "来源".to_owned()
                        } else {
                            shown
                        }
                    },
                    None => "来源".to_owned(),
                };
                line.push_str("：");
                line.push_str(&address);
                Some(line)
            },
        },
    }
}

/// The sources that can be listed, in order.
pub open spec fn source_lines(chunks: Seq<Option<WebView>>) -> Seq<Seq<char>>
    decreases chunks.len(),
{
    if chunks.len() == 0 {
        Seq::empty()
    } else {
        let front = source_lines(chunks.drop_last());
        match source_line(chunks.last()) {
            Some(line) => front.push(line),
            None => front,
        }
    }
}

/// The first three sources that can be listed.
pub open spec fn listed_sources(chunks: Seq<Option<WebView>>) -> Seq<Seq<char>> {
    let lines = source_lines(chunks);
    if lines.len() <= 3 {
        lines
    } else {
        lines.take(3)
    }
}

/// The sources of the front chunks are the first sources.
proof fn lemma_source_lines_front(chunks: Seq<Option<WebView>>, n: int)
    requires
        0 <= n <= chunks.len(),
    ensures
        source_lines(chunks.take(n)).len() <= source_lines(chunks).len(),
        source_lines(chunks.take(n)) == source_lines(chunks).take(
            source_lines(chunks.take(n)).len() as int,
        ),
    decreases chunks.len() - n,
{
    if n < chunks.len() {
        lemma_source_lines_front(chunks, n + 1);
        assert(chunks.take(n + 1).drop_last() =~= chunks.take(n));
        let a = source_lines(chunks.take(n));
        let b = source_lines(chunks.take(n + 1));
        let c = source_lines(chunks);
        assert(a =~= b.take(a.len() as int));
        assert(a =~= c.take(a.len() as int));
    } else {
        assert(chunks.take(n) =~= chunks);
        assert(source_lines(chunks).take(source_lines(chunks).len() as int) =~= source_lines(
            chunks,
        ));
    }
}

fn first_sources(chunks: &Vec<Option<GeminiGroundingWeb>>) -> (r: Vec<String>)
    ensures
        texts(r@) == listed_sources(webs_view(chunks@)),
{
    let ghost all = webs_view(chunks@);
    let mut list: Vec<String> = Vec::new();
    assert(texts(list@) =~= Seq::empty());
    let mut i: usize = 0;
    while i < chunks.len() && list.len() < 3
        invariant
            i <= chunks@.len(),
            all == webs_view(chunks@),
            list@.len() <= 3,
            texts(list@) == source_lines(all.take(i as int)),
        decreases chunks@.len() - i,
    {
        assert(all.take(i + 1).drop_last() =~= all.take(i as int));
        assert(all.take(i + 1).last() == option_web(chunks@[i as int]));
        if let Some(line) = source_line_text(&chunks[i]) {
            let ghost before = texts(list@);
            list.push(line);
            assert(texts(list@) =~= before.push(line@));
        }
        i += 1;
    }
    proof {
        lemma_source_lines_front(all, i as int);
        assert(all.take(all.len() as int) =~= all);
        assert(source_lines(all).take(source_lines(all).len() as int) =~= source_lines(all));
    }
    list
}

/// The answer to a search with the words it searched for and up to three sources.
pub open spec fn grounded_answer(answer: Seq<char>, grounding: Option<GroundingView>) -> Seq<
    char,
> {
    let short = limited(trim_of(answer), 900);
    match grounding {
        None => short,
        Some(g) => {
            let first = seq![short];
            let searched = if g.queries.len() == 0 {
                first
            } else {
                first.push("搜索词："@ + join_of(g.queries, "；"@))
            };
            let sources = listed_sources(g.chunks);
            let sections = if sources.len() == 0 {
                searched
            } else {
                searched.push("来源：\n"@ + join_of(sources, "\n"@))
            };
            limited(join_of(sections, "\n"@), 1400)
        },
    }
}

/// The grounds of the first answer of a reply.
pub open spec fn first_grounding(reply: ReplyView) -> Option<GroundingView> {
    if reply.candidates.len() == 0 {
        None
    } else {
        reply.candidates[0].grounding
    }
}

/// The answer to a search with the words it searched for and up to three sources.
pub fn format_grounded_search_result(
    answer: String,
    response: &GeminiGenerateContentResponse,
) -> (r: String)
    ensures
        r@ == grounded_answer(answer@, first_grounding(response@)),
{
    let trimmed = trim(&answer);
    let short = limit_chars(&trimmed, 900);
    if response.candidates.len() == 0 {
        return short;
    }
    assert(response@.candidates[0] == response.candidates@[0]@);
    match &response.candidates[0].grounding_metadata {
        None => short,
        Some(metadata) => {
            let mut sections: Vec<String> = Vec::new();
            sections.push(short);
            assert(texts(sections@) =~= seq![short@]);
            if metadata.web_search_queries.len() > 0 {
                let ghost before = texts(sections@);
                let mut line = "搜索词：".to_owned();
                line.push_str(&join(&metadata.web_search_queries, "；"));
                sections.push(line);
                assert(texts(sections@) =~= before.push(line@));
            }
            let sources = first_sources(&metadata.grounding_chunks);
            if sources.len() > 0 {
                let ghost before = texts(sections@);
                let mut line = "来源：\n".to_owned();
                line.push_str(&join(&sources, "\n"));
                sections.push(line);
                assert(texts(sections@) =~= before.push(line@));
            }
            limit_chars(&join(&sections, "\n"), 1400)
        },
    }
}

/// The answer to a search that a parsed reply holds.
pub open spec fn search_answer_of(parsed: Option<JsonView>) -> Result<Seq<char>, TextReplyError> {
    match parsed {
        None => Err(TextReplyError::Malformed),
        Some(raw) => match reply_in(raw) {
            None => Err(TextReplyError::Malformed),
            Some(reply) => match first_answer(reply) {
                None => Err(TextReplyError::Empty),
                Some(answer) => Ok(grounded_answer(answer, first_grounding(reply))),
            },
        },
    }
}

/// The answer to a search that the text of a reply holds.
pub fn parse_search_reply(response_text: &str) -> (r: Result<String, TextReplyError>)
    ensures
        match r {
            Ok(text) => search_answer_of(json_parsed(response_text@)) == Ok::<_, TextReplyError>(
                text@,
            ),
            Err(e) => search_answer_of(json_parsed(response_text@)) == Err::<Seq<char>, _>(e),
        },
{
    match parse_json(response_text) {
        None => Err(TextReplyError::Malformed),
        Some(raw) => match read_reply(&raw) {
            None => Err(TextReplyError::Malformed),
            Some(reply) => match first_answer_text(&reply) {
                None => Err(TextReplyError::Empty),
                Some(answer) => Ok(format_grounded_search_result(answer, &reply)),
            },
        },
    }
}

/// The description of an image that a parsed reply holds.
pub open spec fn description_of(parsed: Option<JsonView>) -> Result<Seq<char>, TextReplyError> {
    match parsed {
        None => Err(TextReplyError::Malformed),
        Some(raw) => match reply_in(raw) {
            None => Err(TextReplyError::Malformed),
            Some(reply) => match first_answer(reply) {
                None => Err(TextReplyError::Empty),
                Some(answer) => Ok(answer),
            },
        },
    }
}

/// The description of an image that the text of a reply holds.
pub fn parse_vision_reply(response_text: &str) -> (r: Result<String, TextReplyError>)
    ensures
        match r {
            Ok(text) => description_of(json_parsed(response_text@)) == Ok::<_, TextReplyError>(
                text@,
            ),
            Err(e) => description_of(json_parsed(response_text@)) == Err::<Seq<char>, _>(e),
        },
{
    match parse_json(response_text) {
        None => Err(TextReplyError::Malformed),
        Some(raw) => match read_reply(&raw) {
            None => Err(TextReplyError::Malformed),
            Some(reply) => match first_answer_text(&reply) {
                None => Err(TextReplyError::Empty),
                Some(answer) => Ok(answer),
            },
        },
    }
}

/// A search result never has more characters than its limit and the dots behind it.
pub proof fn law_search_result_is_short(answer: Seq<char>, grounding: Option<GroundingView>)
    ensures
        grounded_answer(answer, grounding).len() <= 1403,
{
    reveal_strlit("...");
}

/// A request holds what is said and the instructions as they are, and the limit that is given.
pub proof fn law_request_holds_its_parts(messages: Seq<ContextMessageView>, max_tokens: i32)
    ensures
        ({
            let request = chat_request(messages, max_tokens);
            &&& request.array_field("contents"@) == Some(turns_json(chat_turns(messages)))
            &&& request.field("system_instruction"@) == instruction_json(
                joined_instructions(instructions(messages)),
            )
            &&& message_turns(messages).len() > 0 ==> chat_turns(messages) == message_turns(messages)
            &&& message_turns(messages).len() == 0 ==> chat_turns(messages).len() == 1
            &&& max_tokens >= 0 ==> (request.field("generationConfig"@) matches Some(config)
                && config.field("maxOutputTokens"@) == Some(JsonView::Unsigned(max_tokens as u64)))
        }),
{
    reveal_strlit("contents");
    reveal_strlit("system_instruction");
    reveal_strlit("generationConfig");
    reveal_strlit("maxOutputTokens");
    reveal_strlit("response_mime_type");
    assert("contents"@.len() == 8 && "system_instruction"@.len() == 18);
    assert("generationConfig"@.len() == 16 && "maxOutputTokens"@.len() == 15);
    assert("response_mime_type"@.len() == 18);
    let request = chat_request(messages, max_tokens);
    let fields = request->Object_0;
    let system = instruction_json(joined_instructions(instructions(messages)));
    let first: int = if system is Some {
        1
    } else {
        0
    };
    lemma_field_at(fields, "contents"@, first);
    lemma_field_at(fields, "generationConfig"@, first + 1);
    if system is Some {
        lemma_field_at(fields, "system_instruction"@, 0);
    } else {
        lemma_no_field(fields, "system_instruction"@);
    }
    let config = request.field("generationConfig"@).unwrap();
    lemma_field_at(config->Object_0, "maxOutputTokens"@, 0);
}

/// A request to describe an image holds one turn of the user: the words first, and then the image with
/// its type and its data.
pub proof fn law_vision_request_holds_question_and_image(
    max_tokens: i32,
    mime_type: Seq<char>,
    data: Seq<char>,
    prompt: Seq<char>,
)
    ensures
        vision_request(max_tokens, mime_type, data, prompt).array_field(
            "contents"@,
        ) matches Some(turns) && turns.len() == 1 && turns[0].text_field("role"@) == Some("user"@)
            && (turns[0].array_field("parts"@) matches Some(parts) && parts.len() == 2
            && parts[0].text_field("text"@) == Some(prompt) && parts[1].nested_text(
            "inline_data"@,
            "mime_type"@,
        ) == Some(mime_type) && parts[1].nested_text("inline_data"@, "data"@) == Some(data)),
{
    reveal_strlit("role");
    reveal_strlit("parts");
    reveal_strlit("mime_type");
    reveal_strlit("data");
    assert("role"@.len() == 4 && "parts"@.len() == 5);
    assert("mime_type"@.len() == 9 && "data"@.len() == 4);
    let request = vision_request(max_tokens, mime_type, data, prompt);
    lemma_field_at(request->Object_0, "contents"@, 0);
    let turn = request.array_field("contents"@).unwrap()[0];
    lemma_field_at(turn->Object_0, "role"@, 0);
    lemma_field_at(turn->Object_0, "parts"@, 1);
    let parts = turn.array_field("parts"@).unwrap();
    lemma_field_at(parts[0]->Object_0, "text"@, 0);
    lemma_field_at(parts[1]->Object_0, "inline_data"@, 0);
    let image = parts[1].field("inline_data"@).unwrap();
    lemma_field_at(image->Object_0, "mime_type"@, 0);
    lemma_field_at(image->Object_0, "data"@, 1);
}

/// A request to search the web holds one turn of the user, which ends with the question as it was
/// asked.
pub proof fn law_search_request_holds_the_question(max_tokens: i32, query: Seq<char>)
    ensures
        search_request(max_tokens, query).array_field("contents"@) matches Some(turns)
            && turns.len() == 1 && turns[0].text_field("role"@) == Some("user"@) && (
        turns[0].array_field("parts"@) matches Some(parts) && parts.len() == 1
            && parts[0].text_field("text"@) == Some(SEARCH_PROMPT@ + query)),
        search_request(max_tokens, query).array_field("tools"@) matches Some(tools) && tools.len()
            == 1 && tools[0].field("google_search"@) is Some,
{
    reveal_strlit("role");
    reveal_strlit("parts");
    reveal_strlit("contents");
    reveal_strlit("tools");
    assert("role"@.len() == 4 && "parts"@.len() == 5);
    assert("contents"@.len() == 8 && "tools"@.len() == 5);
    let request = search_request(max_tokens, query);
    lemma_field_at(request->Object_0, "contents"@, 0);
    lemma_field_at(request->Object_0, "tools"@, 1);
    let turn = request.array_field("contents"@).unwrap()[0];
    lemma_field_at(turn->Object_0, "role"@, 0);
    lemma_field_at(turn->Object_0, "parts"@, 1);
    let parts = turn.array_field("parts"@).unwrap();
    lemma_field_at(parts[0]->Object_0, "text"@, 0);
    let tool = request.array_field("tools"@).unwrap()[0];
    lemma_field_at(tool->Object_0, "google_search"@, 0);
}

} // verus!
