//! Images in messages: where they come from, how they are kept, and how models see them.

use vstd::prelude::*;

use base64::Engine;
use sha2::Digest;

use crate::json::{
    json_written, law_a_put_field_is_read_back, object1, option_text, put_field, write_json, Fields,
    Json, JsonView,
};
use crate::repository::db_manager::{NewReceivedImage, ReceivedImageRecord};
use crate::scheduler::service::{is_random_suffix, random_suffix};
use crate::text::{
    blank, chars_of, find_at, find_from, has_text, is_blank, is_lowered, is_space, join, join_of,
    lemma_find_first, lowered_is, occurs_at, replace, replace_of, same_text, split, split_of,
    starts_with, text_between, texts, trim, trim_end, trim_end_of, trim_of, trim_start_of,
};
use crate::transport::{ContentPart, IncomingMessage};

verus! {

/// What a model is told that describes images.
pub const IMAGE_DESCRIPTION_PROMPT: &'static str = "你是QQ群聊天机器人中的图片内容转写模块。你的任务是把用户发来的图片描述成一段简短文本，供另一个AI角色理解上下文。\n\n要求：\n1. 只描述图片中能直接看到的内容，不要编造、不要猜测图片外的信息。\n2. 描述要包含主体、场景、动作、表情、文字、情绪或用途等关键信息。\n3. 输出优先控制在80字以内，复杂图片最多120字，简单图片简单描述，复杂图片抓住细节。\n4. 如果图片里有文字，提取影响理解的关键文字，不要全文OCR。\n5. 如果图片是表情包/梗图，描述画面、关键文字、情绪和可能的聊天语气。\n6. 如果图片是截图，概括截图类型、关键内容和明显的界面状态，不要逐条复述。\n7. 不要使用“这张图片显示了”“图片中可以看到”等废话开头。\n8. 不要解释你的判断过程。\n9. 不要输出Markdown。\n10. 如果图片内容不清晰，就说明“不清晰”，并描述能辨认出的部分。\n11. 输出必须只有一段，不要换行。\n\n现在直接描述图片内容";

/// What stands for an image that could not be read.
pub const IMAGE_READ_FAILED_TEXT: &'static str = "[图片消息 读取失败]";

/// How long a side of an image may be that goes to a model.
pub const VISION_IMAGE_MAX_SIDE: u32 = 1920;

/// The quality with which images are made smaller.
pub const VISION_IMAGE_JPEG_QUALITY: u8 = 82;

/// How many characters of an image's number are drawn.
pub const IMAGE_ID_RANDOM_CHARS: usize = 8;

/// How often a number for an image is drawn before giving up.
pub const IMAGE_ID_ATTEMPTS: u32 = 20;

/// An image that was kept.
#[derive(Debug, PartialEq, Eq)]
pub struct EnrichedImage {
    pub image_id: String,
    pub content_hash: String,
    pub local_path: String,
    pub description: String,
    /// Whether it is still to be described.
    pub needs_description: bool,
}

/// The text for an image: its description, with brackets and backslashes made harmless, and its
/// number.
pub open spec fn context_text_of(image_id: Seq<char>, description: Seq<char>) -> Seq<char> {
    let alt = if is_blank(description) {
        "图片"@
    } else {
        description
    };
    let a = replace_of(alt, "\\"@, "\\\\"@);
    let b = replace_of(a, "["@, "\\["@);
    let c = replace_of(b, "]"@, "\\]"@);
    "!["@ + c + "](attachment://"@ + image_id + ")"@
}

impl EnrichedImage {
    /// The text for the image.
    pub fn context_text(&self) -> (r: String)
        ensures
            r@ == context_text_of(self.image_id@, self.description@),
    {
        EnrichedImage::context_text_for(&self.image_id, &self.description)
    }

    /// The text for an image.
    pub fn context_text_for(image_id: &str, description: &str) -> (r: String)
        ensures
            r@ == context_text_of(image_id@, description@),
    {
        let alt = if blank(description) {
            "图片"
        } else {
            description
        };
        let a = replace(alt, "\\", "\\\\");
        let b = replace(&a, "[", "\\[");
        let c = replace(&b, "]", "\\]");
        let mut r = "![".to_owned();
        r.push_str(&c);
        r.push_str("](attachment://");
        r.push_str(image_id);
        r.push_str(")");
        r
    }

    /// An image that is known already; it is described where that is wanted and was not done.
    pub fn from_record(record: ReceivedImageRecord, descriptions_enabled: bool) -> (r: EnrichedImage)
        ensures
            r.image_id == record.image_id,
            r.content_hash == record.content_hash,
            r.local_path == record.local_path,
            r.description == record.description,
            r.needs_description == (descriptions_enabled && record.description@.len() == 0),
    {
        let needs_description = descriptions_enabled && record.description.is_empty();
        EnrichedImage {
            image_id: record.image_id,
            content_hash: record.content_hash,
            local_path: record.local_path,
            description: record.description,
            needs_description,
        }
    }

    /// An image that is new.
    pub fn from_new(image: &NewReceivedImage, descriptions_enabled: bool) -> (r: EnrichedImage)
        ensures
            r.image_id@ == image.image_id@,
            r.content_hash@ == image.content_hash@,
            r.local_path@ == image.local_path@,
            r.description@ == Seq::<char>::empty(),
            r.needs_description == descriptions_enabled,
    {
        let r = EnrichedImage {
            image_id: image.image_id.clone(),
            content_hash: image.content_hash.clone(),
            local_path: image.local_path.clone(),
            description: String::new(),
            needs_description: descriptions_enabled,
        };
        assert(r.description@ =~= Seq::<char>::empty());
        r
    }
}

/// Whether a text is an address that can be fetched.
pub open spec fn is_web_address(text: Seq<char>) -> bool {
    crate::text::begins_with(text, "http://"@) || crate::text::begins_with(text, "https://"@)
}

/// The address that a field holds.
pub open spec fn address_in(data: JsonView, key: Seq<char>) -> Option<Seq<char>> {
    match data.text_field(key) {
        Some(text) => if is_web_address(trim_of(text)) {
            Some(trim_of(text))
        } else {
            None
        },
        None => None,
    }
}

/// The address of an image: its own, or that of its file.
pub open spec fn image_address(data: JsonView) -> Option<Seq<char>> {
    match address_in(data, "url"@) {
        Some(url) => Some(url),
        None => address_in(data, "file"@),
    }
}

fn read_address(data: &Json, key: &str) -> (r: Option<String>)
    ensures
        option_text(r) == address_in(data@, key@),
{
    match data.text_at(key) {
        Some(text) => {
            let text = trim(&text);
            if starts_with(&text, "http://") || starts_with(&text, "https://") {
                Some(text)
            } else {
                None
            }
        },
        None => None,
    }
}

/// The address of an image.
pub fn image_download_url(image_data: &Json) -> (r: Option<String>)
    ensures
        option_text(r) == image_address(image_data@),
{
    match read_address(image_data, "url") {
        Some(url) => Some(url),
        None => read_address(image_data, "file"),
    }
}

/// A piece of a message with what is known of its image.
pub open spec fn with_image_info(data: JsonView, image: EnrichedImage) -> JsonView {
    match data {
        JsonView::Object(fields) => {
            let a = put_field(fields, "image_id"@, JsonView::Text(image.image_id@));
            let b = put_field(a, "content_hash"@, JsonView::Text(image.content_hash@));
            let c = put_field(b, "local_path"@, JsonView::Text(image.local_path@));
            JsonView::Object(put_field(c, "description"@, JsonView::Text(image.description@)))
        },
        _ => data,
    }
}

/// A piece of a message with what is known of its image.
pub fn attach_image_info(image_data: Json, image: &EnrichedImage) -> (r: Json)
    ensures
        r@ == with_image_info(image_data@, *image),
{
    match image_data {
        Json::Object(_) => {
            let a = image_data.set("image_id", Json::text(&image.image_id));
            let b = a.set("content_hash", Json::text(&image.content_hash));
            let c = b.set("local_path", Json::text(&image.local_path));
            c.set("description", Json::text(&image.description))
        },
        _ => image_data,
    }
}

/// A text with the next place for an image filled; where there is none, what fills it follows at
/// the end.
pub open spec fn with_image_text(text: Seq<char>, replacement: Seq<char>) -> Seq<char> {
    match find_from(text, "[图片]"@, 0) {
        Some(i) => text.take(i) + replacement + text.skip(i + "[图片]"@.len()),
        None => if is_blank(text) {
            replacement
        } else {
            trim_end_of(text) + " "@ + replacement
        },
    }
}

/// A text with the next place for an image filled.
pub fn replace_next_image_placeholder(text: &str, replacement: &str) -> (r: String)
    ensures
        r@ == with_image_text(text@, replacement@),
{
    let chars = chars_of(text);
    let place = chars_of("[图片]");
    proof {
        lemma_find_first(text@, "[图片]"@, 0);
    }
    match find_at(&chars, &place, 0) {
        Some(i) => {
            let mut r = text_between(&chars, 0, i);
            assert(r@ =~= text@.take(i as int));
            r.push_str(replacement);
            let end: usize = chars.len();
            assert(i + place@.len() <= end);
            let rest = text_between(&chars, i + place.len(), end);
            assert(rest@ =~= text@.skip(i + "[图片]"@.len()));
            r.push_str(&rest);
            r
        },
        None => {
            if blank(text) {
                replacement.to_owned()
            } else {
                let mut r = trim_end(text);
                r.push_str(" ");
                r.push_str(replacement);
                r
            }
        },
    }
}

/// A message whose images were looked at, and the images that are still to be described.
#[derive(Debug, PartialEq)]
pub struct EnrichedIncomingMessage {
    pub message: IncomingMessage,
    pub pending_image_descriptions: Vec<String>,
}

/// The positions of the images among the first `n` pieces.
pub open spec fn image_positions(parts: Seq<ContentPart>, n: nat) -> Seq<int>
    decreases n,
{
    if n == 0 {
        Seq::empty()
    } else if parts[n - 1].kind@ == "image"@ {
        image_positions(parts, (n - 1) as nat).push(n - 1)
    } else {
        image_positions(parts, (n - 1) as nat)
    }
}

/// The positions of the images among the pieces of a message.
pub fn image_indexes(parts: &Vec<ContentPart>) -> (r: Vec<usize>)
    ensures
        r@.map_values(|i: usize| i as int) =~= image_positions(parts@, parts@.len()),
        forall|i: int| 0 <= i < r@.len() ==> #[trigger] r@[i] < parts@.len(),
{
    let mut indexes: Vec<usize> = Vec::new();
    let mut i: usize = 0;
    while i < parts.len()
        invariant
            i <= parts@.len(),
            indexes@.map_values(|i: usize| i as int) =~= image_positions(parts@, i as nat),
            forall|j: int| 0 <= j < indexes@.len() ==> #[trigger] indexes@[j] < i,
        decreases parts@.len() - i,
    {
        if same_text(&parts[i].kind, "image") {
            indexes.push(i);
        }
        i += 1;
    }
    indexes
}

/// The text that stands for an image that was looked at, or could not be read.
pub open spec fn image_text(image: Option<EnrichedImage>) -> Seq<char> {
    match image {
        Some(image) => context_text_of(image.image_id@, image.description@),
        None => IMAGE_READ_FAILED_TEXT@,
    }
}

impl EnrichedIncomingMessage {
    /// A message whose images were not looked at yet.
    pub fn new(message: IncomingMessage) -> (r: EnrichedIncomingMessage)
        ensures
            r.message == message,
            r.pending_image_descriptions@.len() == 0,
    {
        EnrichedIncomingMessage { message, pending_image_descriptions: Vec::new() }
    }

    /// Takes in what came of the image at a position: the piece learns of it, the text names it, and
    /// where it is still to be described it is listed. Nothing else of the message changes.
    pub fn apply_image(&mut self, index: usize, image: Option<EnrichedImage>)
        requires
            index < old(self).message.content.parts@.len(),
        ensures
            final(self).message.content.text@ == with_image_text(
                old(self).message.content.text@,
                image_text(image),
            ),
            final(self).message.content.parts@.len() == old(self).message.content.parts@.len(),
            forall|i: int|
                0 <= i < old(self).message.content.parts@.len() && i != index
                    ==> #[trigger] final(self).message.content.parts@[i]
                    == old(self).message.content.parts@[i],
            final(self).message.content.parts@[index as int].kind@
                == old(self).message.content.parts@[index as int].kind@,
            final(self).message.content.parts@[index as int].data@ == (match image {
                Some(image) => with_image_info(
                    old(self).message.content.parts@[index as int].data@,
                    image,
                ),
                None => old(self).message.content.parts@[index as int].data@,
            }),
            texts(final(self).pending_image_descriptions@) =~= (match image {
                Some(image) => if image.needs_description {
                    texts(old(self).pending_image_descriptions@).push(image.image_id@)
                } else {
                    texts(old(self).pending_image_descriptions@)
                },
                None => texts(old(self).pending_image_descriptions@),
            }),
            final(self).message.source == old(self).message.source,
            final(self).message.bot_id == old(self).message.bot_id,
            final(self).message.message_id == old(self).message.message_id,
            final(self).message.conversation == old(self).message.conversation,
            final(self).message.sender == old(self).message.sender,
            final(self).message.metadata == old(self).message.metadata,
            final(self).message.timestamp == old(self).message.timestamp,
    {
        match image {
            Some(image) => {
                let part = ContentPart {
                    kind: self.message.content.parts[index].kind.clone(),
                    data: attach_image_info(
                        self.message.content.parts[index].data.clone(),
                        &image,
                    ),
                };
                self.message.content.parts.set(index, part);
                self.message.content.text = replace_next_image_placeholder(
                    &self.message.content.text,
                    &image.context_text(),
                );
                if image.needs_description {
                    self.pending_image_descriptions.push(image.image_id);
                }
            },
            None => {
                self.message.content.text = replace_next_image_placeholder(
                    &self.message.content.text,
                    IMAGE_READ_FAILED_TEXT,
                );
            },
        }
    }
}

/// What `sha2::Sha256::digest` computes of bytes.
pub uninterp spec fn sha256_of(bytes: Seq<u8>) -> Seq<u8>;

/// `sha2::Sha256::digest`. What it computes is named; that it is 32 bytes is claimed of it.
#[verifier::external_body]
fn sha256(bytes: &Vec<u8>) -> (r: Vec<u8>)
    ensures
        r@ == sha256_of(bytes@),
        r@.len() == 32,
{
    sha2::Sha256::digest(bytes).to_vec()
}

/// A digit of the system of sixteen.
pub open spec fn hex_digit(n: int) -> char {
    "0123456789abcdef"@[n]
}

/// Bytes in digits of the system of sixteen.
pub open spec fn hex_of(bytes: Seq<u8>) -> Seq<char>
    decreases bytes.len(),
{
    if bytes.len() == 0 {
        Seq::empty()
    } else {
        hex_of(bytes.drop_last()).push(hex_digit(bytes.last() as int / 16)).push(
            hex_digit(bytes.last() as int % 16),
        )
    }
}

fn push_hex_digit(out: &mut String, n: u8)
    requires
        n < 16,
    ensures
        final(out)@ == old(out)@.push(hex_digit(n as int)),
{
    proof {
        reveal_strlit("0123456789abcdef");
    }
    let digits = chars_of("0123456789abcdef");
    out.push(digits[n as usize]);
}

/// Bytes in digits of the system of sixteen.
pub fn hex(bytes: &Vec<u8>) -> (r: String)
    ensures
        r@ == hex_of(bytes@),
{
    let mut r = String::new();
    let mut i: usize = 0;
    assert(bytes@.take(0) =~= Seq::empty());
    assert(r@ =~= Seq::empty());
    while i < bytes.len()
        invariant
            i <= bytes@.len(),
            r@ == hex_of(bytes@.take(i as int)),
        decreases bytes@.len() - i,
    {
        assert(bytes@.take(i + 1).drop_last() =~= bytes@.take(i as int));
        push_hex_digit(&mut r, bytes[i] / 16);
        push_hex_digit(&mut r, bytes[i] % 16);
        i += 1;
    }
    assert(bytes@.take(i as int) =~= bytes@);
    r
}

/// The mark by which an image is known again.
pub fn sha256_hex(bytes: &Vec<u8>) -> (r: String)
    ensures
        r@ == hex_of(sha256_of(bytes@)),
{
    hex(&sha256(bytes))
}

/// The ending of the file that an image of a kind is kept in.
pub open spec fn extension_for(mime_type: Option<Seq<char>>) -> Seq<char> {
    match mime_type {
        Some(kind) => if kind == "image/jpeg"@ || kind == "image/jpg"@ {
            "jpg"@
        } else if kind == "image/png"@ {
            "png"@
        } else if kind == "image/gif"@ {
            "gif"@
        } else if kind == "image/webp"@ {
            "webp"@
        } else if kind == "image/bmp"@ {
            "bmp"@
        } else {
            "img"@
        },
        None => "img"@,
    }
}

/// The ending of the file that an image of a kind is kept in.
pub fn image_extension(mime_type: &Option<String>) -> (r: &'static str)
    ensures
        r@ == extension_for(option_text(*mime_type)),
{
    match mime_type {
        Some(kind) => {
            if same_text(kind, "image/jpeg") || same_text(kind, "image/jpg") {
                "jpg"
            } else if same_text(kind, "image/png") {
                "png"
            } else if same_text(kind, "image/gif") {
                "gif"
            } else if same_text(kind, "image/webp") {
                "webp"
            } else if same_text(kind, "image/bmp") {
                "bmp"
            } else {
                "img"
            }
        },
        None => "img",
    }
}

/// The name of the file that an image is kept in.
pub fn image_file_name(image_id: &str, mime_type: &Option<String>) -> (r: String)
    ensures
        r@ == image_id@ + "."@ + extension_for(option_text(*mime_type)),
{
    let mut r = image_id.to_owned();
    r.push_str(".");
    r.push_str(image_extension(mime_type));
    r
}

/// How many of the first `n` parts of a path are left once those at its end are gone that name
/// nothing.
pub open spec fn named_parts(parts: Seq<Seq<char>>, n: nat) -> nat
    decreases n,
{
    if n > 0 && (parts[n - 1].len() == 0 || parts[n - 1] == "."@) {
        named_parts(parts, (n - 1) as nat)
    } else {
        n
    }
}

/// The name of the file that a path leads to.
pub open spec fn file_name_of(path: Seq<char>) -> Option<Seq<char>> {
    let parts = split_of(path, '/');
    let n = named_parts(parts, parts.len());
    if n == 0 || parts[n - 1] == ".."@ {
        None
    } else {
        Some(parts[n - 1])
    }
}

/// Where the last dot of a name stands.
pub open spec fn last_dot(name: Seq<char>) -> Option<int>
    decreases name.len(),
{
    if name.len() == 0 {
        None
    } else if name.last() == '.' {
        Some(name.len() - 1)
    } else {
        last_dot(name.drop_last())
    }
}

/// The ending of the file that a path leads to: what follows the last dot of its name, unless the
/// name begins with it.
pub open spec fn ending_of(path: Seq<char>) -> Option<Seq<char>> {
    match file_name_of(path) {
        Some(name) => match last_dot(name) {
            Some(i) => if i == 0 {
                None
            } else {
                Some(name.skip(i + 1))
            },
            None => None,
        },
        None => None,
    }
}

fn file_name(path: &str) -> (r: Option<String>)
    ensures
        option_text(r) == file_name_of(path@),
{
    let parts = split(path, '/');
    let ghost all = texts(parts@);
    let mut n: usize = parts.len();
    while n > 0 && (parts[n - 1].is_empty() || same_text(&parts[n - 1], "."))
        invariant
            n <= parts@.len(),
            all == texts(parts@),
            named_parts(all, all.len()) == named_parts(all, n as nat),
        decreases n,
    {
        assert(all[n - 1] == parts@[n - 1]@);
        n -= 1;
    }
    if n > 0 {
        assert(all[n - 1] == parts@[n - 1]@);
    }
    if n == 0 || same_text(&parts[n - 1], "..") {
        None
    } else {
        Some(parts[n - 1].clone())
    }
}

/// Where the last dot of a name stands.
pub fn find_last_dot(name: &Vec<char>) -> (r: Option<usize>)
    ensures
        match r {
            Some(i) => last_dot(name@) == Some(i as int) && i < name@.len(),
            None => last_dot(name@) is None,
        },
{
    let mut i: usize = name.len();
    assert(name@.take(i as int) =~= name@);
    while i > 0
        invariant
            i <= name@.len(),
            last_dot(name@) == last_dot(name@.take(i as int)),
        decreases i,
    {
        assert(name@.take(i as int).drop_last() =~= name@.take(i - 1));
        if name[i - 1] == '.' {
            return Some(i - 1);
        }
        i -= 1;
    }
    None
}

/// The ending of the file that a path leads to.
pub fn file_ending(path: &str) -> (r: Option<String>)
    ensures
        option_text(r) == ending_of(path@),
{
    match file_name(path) {
        Some(name) => {
            let chars = chars_of(&name);
            match find_last_dot(&chars) {
                Some(i) => {
                    if i == 0 {
                        None
                    } else {
                        let end: usize = chars.len();
                        let ending = text_between(&chars, i + 1, end);
                        assert(ending@ =~= name@.skip(i + 1));
                        Some(ending)
                    }
                },
                None => None,
            }
        },
        None => None,
    }
}

/// The kind of image that a file with an ending holds.
pub open spec fn mime_type_for(ending: Option<Seq<char>>) -> Seq<char> {
    match ending {
        Some(ending) => if is_lowered(ending, "png"@) {
            "image/png"@
        } else if is_lowered(ending, "gif"@) {
            "image/gif"@
        } else if is_lowered(ending, "webp"@) {
            "image/webp"@
        } else if is_lowered(ending, "bmp"@) {
            "image/bmp"@
        } else {
            "image/jpeg"@
        },
        None => "image/jpeg"@,
    }
}

/// The kind of image that the file at a path holds.
pub fn mime_type_from_path(path: &str) -> (r: &'static str)
    ensures
        r@ == mime_type_for(ending_of(path@)),
{
    match file_ending(path) {
        Some(ending) => {
            if lowered_is(&ending, "png") {
                "image/png"
            } else if lowered_is(&ending, "gif") {
                "image/gif"
            } else if lowered_is(&ending, "webp") {
                "image/webp"
            } else if lowered_is(&ending, "bmp") {
                "image/bmp"
            } else {
                "image/jpeg"
            }
        },
        None => "image/jpeg",
    }
}

/// The kind that a header names: what stands before its first semicolon.
pub open spec fn content_type_of(header: Seq<char>) -> Option<Seq<char>> {
    let kind = trim_of(split_of(header, ';')[0]);
    if kind.len() == 0 {
        None
    } else {
        Some(kind)
    }
}

/// The kind that a header names.
pub fn content_type(header: &str) -> (r: Option<String>)
    ensures
        option_text(r) == content_type_of(header@),
{
    let parts = split(header, ';');
    proof {
        crate::text::lemma_split_nonempty(header@, ';');
        assert(texts(parts@)[0] == parts@[0]@);
    }
    let kind = trim(&parts[0]);
    if kind.is_empty() {
        None
    } else {
        Some(kind)
    }
}

/// The lines of a text that are not blank, trimmed.
pub open spec fn full_lines(lines: Seq<Seq<char>>) -> Seq<Seq<char>>
    decreases lines.len(),
{
    if lines.len() == 0 {
        Seq::empty()
    } else {
        let line = trim_of(lines.last());
        if line.len() == 0 {
            full_lines(lines.drop_last())
        } else {
            full_lines(lines.drop_last()).push(line)
        }
    }
}

/// A description in one line.
pub open spec fn sanitized(description: Seq<char>) -> Seq<char> {
    let line = join_of(full_lines(split_of(description, '\n')), " "@);
    if line.len() == 0 {
        "图片内容为空"@
    } else {
        line
    }
}

/// A description in one line.
pub fn sanitize_description(description: &str) -> (r: String)
    ensures
        r@ == sanitized(description@),
{
    let lines = split(description, '\n');
    let ghost all = texts(lines@);
    let mut kept: Vec<String> = Vec::new();
    let mut i: usize = 0;
    assert(all.take(0) =~= Seq::empty());
    assert(texts(kept@) =~= Seq::empty());
    while i < lines.len()
        invariant
            i <= lines@.len(),
            all == texts(lines@),
            texts(kept@) == full_lines(all.take(i as int)),
        decreases lines@.len() - i,
    {
        assert(all.take(i + 1).drop_last() =~= all.take(i as int));
        let line = trim(&lines[i]);
        if !line.is_empty() {
            let ghost before = texts(kept@);
            let ghost added = line@;
            kept.push(line);
            assert(texts(kept@) =~= before.push(added));
        }
        i += 1;
    }
    assert(all.take(i as int) =~= all);
    let line = join(&kept, " ");
    if line.is_empty() {
        "图片内容为空".to_owned()
    } else {
        line
    }
}

/// Draws a number for an image, unless it was tried too often; the caller sees whether it is taken.
pub fn draw_image_id(attempt: u32) -> (r: Option<String>)
    ensures
        match r {
            Some(id) => attempt < IMAGE_ID_ATTEMPTS && exists|suffix: Seq<char>|
                #![trigger is_random_suffix(suffix, IMAGE_ID_RANDOM_CHARS)]
                is_random_suffix(suffix, IMAGE_ID_RANDOM_CHARS) && id@ == "img_"@ + suffix,
            None => attempt >= IMAGE_ID_ATTEMPTS,
        },
{
    if attempt >= IMAGE_ID_ATTEMPTS {
        return None;
    }
    let suffix = random_suffix(IMAGE_ID_RANDOM_CHARS);
    let mut id = "img_".to_owned();
    id.push_str(&suffix);
    assert(is_random_suffix(suffix@, IMAGE_ID_RANDOM_CHARS));
    Some(id)
}

/// A new image to store.
pub fn new_received_image(
    image_id: String,
    content_hash: String,
    local_path: String,
    original_url: String,
    mime_type: Option<String>,
    file_size: usize,
    image_data: &Json,
) -> (r: NewReceivedImage)
    requires
        file_size <= i64::MAX,
    ensures
        r.image_id == image_id,
        r.content_hash == content_hash,
        r.local_path == local_path,
        r.original_url == Some(original_url),
        r.mime_type == mime_type,
        r.file_size == file_size,
        r.description@ == Seq::<char>::empty(),
        r.metadata_json@ == json_written(object1("source_part_data"@, image_data@)),
{
    let mut fields = Fields::new();
    fields.put("source_part_data", image_data.clone());
    let metadata_json = write_json(&fields.done());
    let description = String::new();
    assert(description@ =~= Seq::<char>::empty());
    NewReceivedImage {
        image_id,
        content_hash,
        local_path,
        original_url: Some(original_url),
        mime_type,
        file_size: file_size as i64,
        description,
        metadata_json,
    }
}

/// An image as a model gets it.
#[derive(Debug, PartialEq, Eq)]
pub struct VisionImagePayload {
    pub bytes: Vec<u8>,
    pub mime_type: String,
}

/// The width and the height of the image that `image::load_from_memory` reads in bytes.
pub uninterp spec fn image_size(bytes: Seq<u8>) -> Option<(u32, u32)>;

/// `image::load_from_memory`, and the dimensions of what it read. The result is named.
#[verifier::external_body]
fn read_image_size(bytes: &Vec<u8>) -> (r: Option<(u32, u32)>)
    ensures
        r == image_size(bytes@),
{
    match image::load_from_memory(bytes) {
        Ok(picture) => Some((picture.width(), picture.height())),
        Err(_) => None,
    }
}

/// Whether an image fits within bounds and, where it was made from one with any extent, is as wide
/// or as high as they allow.
pub open spec fn fills(size: (u32, u32), from: Option<(u32, u32)>, width: int, height: int) -> bool {
    &&& size.0 <= width
    &&& size.1 <= height
    &&& (from matches Some(f) && f.0 > 0 && f.1 > 0) ==> size.0 == width || size.1 == height
}

/// The length of a side once the longest side is made `max_side` long: rounded, and at least one.
pub open spec fn scaled_side(side: u32, longest: u32, max_side: u32) -> int {
    let rounded = (2 * side * max_side + longest) / (2 * longest);
    if rounded < 1 {
        1
    } else {
        rounded
    }
}

/// The length of a side once the longest side is made `max_side` long.
pub fn scale_side(side: u32, longest: u32, max_side: u32) -> (r: u32)
    requires
        side <= longest,
        0 < longest,
        0 < max_side,
    ensures
        r == scaled_side(side, longest, max_side),
        1 <= r <= max_side,
{
    assert(2 * side * max_side <= 2 * 0xffff_ffff * 0xffff_ffff) by (nonlinear_arith)
        requires
            0 <= side <= 0xffff_ffff,
            0 <= max_side <= 0xffff_ffff,
    ;
    let top: u128 = 2 * side as u128 * max_side as u128 + longest as u128;
    let bottom: u128 = 2 * longest as u128;
    assert(top <= bottom * max_side + longest) by (nonlinear_arith)
        requires
            top == 2 * side * max_side + longest,
            bottom == 2 * longest,
            side <= longest,
    ;
    assert(top / bottom <= max_side) by (nonlinear_arith)
        requires
            top <= bottom * max_side + longest,
            bottom == 2 * longest,
            0 < longest,
    ;
    let rounded: u128 = top / bottom;
    if rounded < 1 {
        1
    } else {
        rounded as u32
    }
}

/// Why an image cannot go to a model.
#[derive(Debug, Clone, Copy, PartialEq, Eq, Structural)]
pub enum VisionError {
    /// It cannot be read.
    Unreadable,
    /// It cannot be made smaller.
    NotResized,
    /// It takes more memory than there is for it.
    TooLarge,
}

/// Whether an image of a size goes to a model as it is.
pub open spec fn fits_vision(size: (u32, u32)) -> bool {
    size.0 <= VISION_IMAGE_MAX_SIDE && size.1 <= VISION_IMAGE_MAX_SIDE
}

/// The longer of two sides.
pub open spec fn longest_side(size: (u32, u32)) -> u32 {
    if size.0 < size.1 {
        size.1
    } else {
        size.0
    }
}

/// How an image is made smaller: within which bounds, and how well it is written.
#[derive(Debug, Clone, Copy, PartialEq, Eq, Structural)]
pub struct ResizeOrder {
    pub width: u32,
    pub height: u32,
    pub quality: u8,
}

/// How an image with a side that is too long is made smaller: so that its longest side is as long as
/// it may be.
pub fn resize_order(width: u32, height: u32) -> (r: ResizeOrder)
    requires
        !fits_vision((width, height)),
    ensures
        r.width == scaled_side(width, longest_side((width, height)), VISION_IMAGE_MAX_SIDE),
        r.height == scaled_side(height, longest_side((width, height)), VISION_IMAGE_MAX_SIDE),
        r.quality == VISION_IMAGE_JPEG_QUALITY,
        1 <= r.width <= VISION_IMAGE_MAX_SIDE,
        1 <= r.height <= VISION_IMAGE_MAX_SIDE,
{
    let longest: u32 = if width < height {
        height
    } else {
        width
    };
    ResizeOrder {
        width: scale_side(width, longest, VISION_IMAGE_MAX_SIDE),
        height: scale_side(height, longest, VISION_IMAGE_MAX_SIDE),
        quality: VISION_IMAGE_JPEG_QUALITY,
    }
}

/// Whether bytes are an image with any extent.
pub open spec fn has_extent(bytes: Seq<u8>) -> bool {
    image_size(bytes) matches Some(size) && size.0 > 0 && size.1 > 0
}

/// `image::DynamicImage::resize` with the Lanczos filter on the image that
/// `image::load_from_memory` reads, written by `image::codecs::jpeg::JpegEncoder`. Claimed is that
/// this succeeds for every image with any extent, and that what is written is an image again that
/// fits within the bounds and is as large as they allow; which bytes it takes rests on the
/// arithmetic of the machine and is left unsaid.
#[verifier::external_body]
fn resize_to_jpeg(bytes: &Vec<u8>, order: ResizeOrder) -> (r: Option<Vec<u8>>)
    requires
        1 <= order.width <= 4096,
        1 <= order.height <= 4096,
        1 <= order.quality <= 100,
    ensures
        has_extent(bytes@) ==> r is Some,
        r matches Some(written) ==> (image_size(written@) matches Some(size) && fills(
            size,
            image_size(bytes@),
            order.width as int,
            order.height as int,
        )),
{
    let picture = image::load_from_memory(bytes).ok()?;
    let filter = image::imageops::FilterType::Lanczos3;
    let resized = picture.resize(order.width, order.height, filter);
    let mut output = Vec::new();
    let mut encoder = image::codecs::jpeg::JpegEncoder::new_with_quality(&mut output, order.quality);
    encoder.encode_image(&resized.to_rgb8()).ok()?;
    Some(output)
}

/// Whether an image is another one made smaller, so that its longest side is as long as it may be.
pub open spec fn made_smaller(bytes: Seq<u8>, small: Seq<u8>, size: (u32, u32)) -> bool {
    image_size(small) matches Some(s) && fits_vision(s) && fills(
        s,
        image_size(bytes),
        scaled_side(size.0, longest_side(size), VISION_IMAGE_MAX_SIDE),
        scaled_side(size.1, longest_side(size), VISION_IMAGE_MAX_SIDE),
    )
}

/// What a model gets of an image that had to be made smaller, by what came of that.
pub fn resized_payload(written: Option<Vec<u8>>) -> (r: Result<VisionImagePayload, VisionError>)
    ensures
        match written {
            Some(bytes) => r is Ok && r->Ok_0.bytes@ == bytes@ && r->Ok_0.mime_type@
                == "image/jpeg"@,
            None => r == Err::<VisionImagePayload, VisionError>(VisionError::NotResized),
        },
{
    match written {
        Some(bytes) => Ok(VisionImagePayload { bytes, mime_type: "image/jpeg".to_owned() }),
        None => Err(VisionError::NotResized),
    }
}

/// An image as a model gets it: one whose sides are short enough stays as it is, another one is
/// made smaller. No model gets an image with a side that is too long.
pub fn prepare_image_for_vision(bytes: &Vec<u8>, mime_type: &Option<String>) -> (r: Result<
    VisionImagePayload,
    VisionError,
>)
    ensures
        match image_size(bytes@) {
            None => r == Err::<VisionImagePayload, VisionError>(VisionError::Unreadable),
            Some(size) => if fits_vision(size) {
                r is Ok && r->Ok_0.bytes@ == bytes@ && r->Ok_0.mime_type@ == (match *mime_type {
                    Some(kind) => kind@,
                    None => "image/jpeg"@,
                })
            } else {
                match r {
                    Ok(payload) => payload.mime_type@ == "image/jpeg"@ && made_smaller(
                        bytes@,
                        payload.bytes@,
                        size,
                    ),
                    Err(e) => e == VisionError::NotResized && !has_extent(bytes@),
                }
            },
        },
{
    let (width, height): (u32, u32) = match read_image_size(bytes) {
        Some(size) => size,
        None => {
            return Err(VisionError::Unreadable);
        },
    };
    let longest: u32 = if width < height {
        height
    } else {
        width
    };
    if longest <= VISION_IMAGE_MAX_SIDE {
        let mime_type = match mime_type {
            Some(kind) => kind.clone(),
            None => "image/jpeg".to_owned(),
        };
        return Ok(VisionImagePayload { bytes: copy_bytes(bytes), mime_type });
    }
    let written = resize_to_jpeg(bytes, resize_order(width, height));
    resized_payload(written)
}

fn copy_bytes(bytes: &Vec<u8>) -> (r: Vec<u8>)
    ensures
        r@ == bytes@,
{
    let mut r: Vec<u8> = Vec::new();
    let mut i: usize = 0;
    while i < bytes.len()
        invariant
            i <= bytes@.len(),
            r@ =~= bytes@.take(i as int),
        decreases bytes@.len() - i,
    {
        r.push(bytes[i]);
        i += 1;
    }
    assert(bytes@.take(i as int) =~= bytes@);
    r
}

/// What the standard engine of `base64` writes for bytes.
pub uninterp spec fn base64_of(bytes: Seq<u8>) -> Seq<char>;

/// `base64::engine::general_purpose::STANDARD.encode`. What it writes is named; that it is four
/// characters for each three bytes begun is claimed of it.
#[verifier::external_body]
fn base64_encode(bytes: &Vec<u8>) -> (r: String)
    requires
        bytes@.len() <= usize::MAX / 4,
    ensures
        r@ == base64_of(bytes@),
        r@.len() == (bytes@.len() + 2) / 3 * 4,
{
    base64::engine::general_purpose::STANDARD.encode(bytes)
}

/// An image as an address that holds it.
pub open spec fn data_url_of(image: VisionImagePayload) -> Seq<char> {
    "data:"@ + image.mime_type@ + ";base64,"@ + base64_of(image.bytes@)
}

/// An image as an address that holds it.
pub fn vision_image_data_url(image: &VisionImagePayload) -> (r: String)
    requires
        image.bytes@.len() <= usize::MAX / 4,
    ensures
        r@ == data_url_of(*image),
{
    let mut r = "data:".to_owned();
    r.push_str(&image.mime_type);
    r.push_str(";base64,");
    r.push_str(&base64_encode(&image.bytes));
    r
}

/// An image as an address that a model gets.
pub fn prepare_vision_image_data_url(bytes: &Vec<u8>, mime_type: &Option<String>) -> (r: Result<
    String,
    VisionError,
>)
    ensures
        image_size(bytes@) is None ==> r == Err::<String, VisionError>(VisionError::Unreadable),
        (image_size(bytes@) matches Some(size) && fits_vision(size)) ==> if bytes@.len()
            <= usize::MAX / 4 {
            r is Ok && r->Ok_0@ == "data:"@ + (match *mime_type {
                Some(kind) => kind@,
                None => "image/jpeg"@,
            }) + ";base64,"@ + base64_of(bytes@)
        } else {
            r == Err::<String, VisionError>(VisionError::TooLarge)
        },
        (image_size(bytes@) matches Some(size) && !fits_vision(size)) ==> match r {
            Ok(url) => exists|payload: VisionImagePayload|
                url@ == #[trigger] data_url_of(payload) && payload.mime_type@ == "image/jpeg"@
                    && made_smaller(bytes@, payload.bytes@, image_size(bytes@).unwrap()),
            Err(e) => {
                ||| e == VisionError::TooLarge && exists|payload: VisionImagePayload|
                    made_smaller(
                        bytes@,
                        #[trigger] payload.bytes@,
                        image_size(bytes@).unwrap(),
                    ) && payload.bytes@.len() > usize::MAX / 4
                ||| e == VisionError::NotResized && !has_extent(bytes@)
            },
        },
{
    match prepare_image_for_vision(bytes, mime_type) {
        Ok(payload) => {
            if payload.bytes.len() <= usize::MAX / 4 {
                Ok(vision_image_data_url(&payload))
            } else {
                Err(VisionError::TooLarge)
            }
        },
        Err(e) => Err(e),
    }
}

/// No piece of a text that was split holds what stood between the pieces.
proof fn lemma_pieces_without(s: Seq<char>, sep: char)
    ensures
        split_of(s, sep).len() > 0,
        forall|i: int|
            0 <= i < split_of(s, sep).len() ==> !(#[trigger] split_of(s, sep)[i]).contains(sep),
    decreases s.len(),
{
    if s.len() > 0 {
        lemma_pieces_without(s.drop_last(), sep);
        let front = split_of(s.drop_last(), sep);
        let last = front.last();
        assert(!last.contains(sep));
        assert forall|k: int| 0 <= k < last.push(s.last()).len() && s.last() != sep implies (
        #[trigger] last.push(s.last())[k]) != sep by {
            if k < last.len() {
                assert(last.contains(last[k]));
            }
        }
    }
}

/// Trimming brings no character in.
proof fn lemma_trimmed_without(s: Seq<char>, c: char)
    requires
        !s.contains(c),
    ensures
        !trim_of(s).contains(c),
{
    lemma_start_trimmed_without(s, c);
    lemma_end_trimmed_without(trim_start_of(s), c);
}

proof fn lemma_start_trimmed_without(s: Seq<char>, c: char)
    requires
        !s.contains(c),
    ensures
        !trim_start_of(s).contains(c),
    decreases s.len(),
{
    if s.len() > 0 && is_space(s[0]) {
        assert forall|k: int| 0 <= k < s.drop_first().len() implies #[trigger] s.drop_first()[k]
            != c by {
            assert(s.contains(s[k + 1]));
        }
        lemma_start_trimmed_without(s.drop_first(), c);
    }
}

proof fn lemma_end_trimmed_without(s: Seq<char>, c: char)
    requires
        !s.contains(c),
    ensures
        !trim_end_of(s).contains(c),
    decreases s.len(),
{
    if s.len() > 0 && is_space(s.last()) {
        assert forall|k: int| 0 <= k < s.drop_last().len() implies #[trigger] s.drop_last()[k]
            != c by {
            assert(s.contains(s[k]));
        }
        lemma_end_trimmed_without(s.drop_last(), c);
    }
}

proof fn lemma_full_lines_without(lines: Seq<Seq<char>>, c: char)
    requires
        forall|i: int| 0 <= i < lines.len() ==> !(#[trigger] lines[i]).contains(c),
    ensures
        forall|i: int|
            0 <= i < full_lines(lines).len() ==> !(#[trigger] full_lines(lines)[i]).contains(c),
    decreases lines.len(),
{
    if lines.len() > 0 {
        lemma_full_lines_without(lines.drop_last(), c);
        lemma_trimmed_without(lines.last(), c);
        let front = full_lines(lines.drop_last());
        assert forall|i: int| 0 <= i < full_lines(lines).len() implies !(#[trigger] full_lines(
            lines,
        )[i]).contains(c) by {
            if i < front.len() {
                assert(full_lines(lines)[i] == front[i]);
            }
        }
    }
}

proof fn lemma_joined_without(parts: Seq<Seq<char>>, sep: Seq<char>, c: char)
    requires
        forall|i: int| 0 <= i < parts.len() ==> !(#[trigger] parts[i]).contains(c),
        !sep.contains(c),
    ensures
        !join_of(parts, sep).contains(c),
    decreases parts.len(),
{
    if parts.len() > 1 {
        lemma_joined_without(parts.drop_last(), sep, c);
        let front = join_of(parts.drop_last(), sep);
        let whole = front + sep + parts.last();
        assert forall|k: int| 0 <= k < whole.len() implies #[trigger] whole[k] != c by {
            if k < front.len() {
                assert(front.contains(front[k]));
            } else if k < front.len() + sep.len() {
                assert(sep.contains(sep[k - front.len()]));
            } else {
                assert(parts.last().contains(parts.last()[k - front.len() - sep.len()]));
            }
        }
    }
}

/// A description is never empty and takes one line.
pub proof fn law_descriptions_take_one_line(description: Seq<char>)
    ensures
        sanitized(description).len() > 0,
        !sanitized(description).contains('\n'),
{
    reveal_strlit("图片内容为空");
    reveal_strlit(" ");
    lemma_pieces_without(description, '\n');
    lemma_full_lines_without(split_of(description, '\n'), '\n');
    lemma_joined_without(full_lines(split_of(description, '\n')), " "@, '\n');
}

/// The first place for an image is the one that is filled: what stands before and behind it stays. A
/// text without such a place gets the image behind it.
pub proof fn law_the_first_place_is_filled(text: Seq<char>, replacement: Seq<char>, at: int)
    ensures
        occurs_at(text, "[图片]"@, at) && (forall|j: int|
            0 <= j < at ==> !#[trigger] occurs_at(text, "[图片]"@, j)) ==> with_image_text(
            text,
            replacement,
        ) == text.take(at) + replacement + text.skip(at + "[图片]"@.len()),
        !has_text(text, "[图片]"@) && !is_blank(text) ==> with_image_text(text, replacement)
            == trim_end_of(text) + " "@ + replacement,
        !has_text(text, "[图片]"@) && is_blank(text) ==> with_image_text(text, replacement)
            == replacement,
{
    lemma_find_first(text, "[图片]"@, 0);
    match find_from(text, "[图片]"@, 0) {
        Some(i) => {
            assert(occurs_at(text, "[图片]"@, i));
            if occurs_at(text, "[图片]"@, at) && (forall|j: int|
                0 <= j < at ==> !#[trigger] occurs_at(text, "[图片]"@, j)) {
                assert(i == at);
            }
        },
        None => {},
    }
}

/// The positions of the images rise, and a position is among them exactly where an image stands.
pub proof fn law_every_image_has_its_position(parts: Seq<ContentPart>, n: nat, i: int)
    requires
        n <= parts.len(),
    ensures
        image_positions(parts, n).contains(i) <==> 0 <= i < n && parts[i].kind@ == "image"@,
        forall|a: int, b: int|
            0 <= a < b < image_positions(parts, n).len() ==> #[trigger] image_positions(parts, n)[a]
                < #[trigger] image_positions(parts, n)[b],
        forall|a: int|
            0 <= a < image_positions(parts, n).len() ==> 0 <= #[trigger] image_positions(parts, n)[a]
                < n,
    decreases n,
{
    if n > 0 {
        let m = (n - 1) as nat;
        law_every_image_has_its_position(parts, m, i);
        let before = image_positions(parts, m);
        let all = image_positions(parts, n);
        if parts[n - 1].kind@ == "image"@ {
            assert(all == before.push(n - 1));
            assert(all[before.len() as int] == n - 1);
            if before.contains(i) {
                let k = before.index_of(i);
                assert(all[k] == i);
            }
            if all.contains(i) && i != n - 1 {
                let k = all.index_of(i);
                assert(before[k] == i);
            }
        }
    }
}

/// What is known of an image is written under its own names, and every other field of the piece stays
/// as it was.
pub proof fn law_image_info_is_attached(
    fields: Seq<(Seq<char>, JsonView)>,
    image: EnrichedImage,
    other: Seq<char>,
)
    requires
        other != "image_id"@,
        other != "content_hash"@,
        other != "local_path"@,
        other != "description"@,
    ensures
        ({
            let r = with_image_info(JsonView::Object(fields), image);
            &&& r.text_field("image_id"@) == Some(image.image_id@)
            &&& r.text_field("content_hash"@) == Some(image.content_hash@)
            &&& r.text_field("local_path"@) == Some(image.local_path@)
            &&& r.text_field("description"@) == Some(image.description@)
            &&& r.field(other) == JsonView::Object(fields).field(other)
        }),
{
    reveal_strlit("image_id");
    reveal_strlit("content_hash");
    reveal_strlit("local_path");
    reveal_strlit("description");
    assert("image_id"@.len() == 8 && "content_hash"@.len() == 12 && "local_path"@.len() == 10
        && "description"@.len() == 11);
    let vi = JsonView::Text(image.image_id@);
    let vh = JsonView::Text(image.content_hash@);
    let vp = JsonView::Text(image.local_path@);
    let vd = JsonView::Text(image.description@);
    let a = put_field(fields, "image_id"@, vi);
    let b = put_field(a, "content_hash"@, vh);
    let c = put_field(b, "local_path"@, vp);
    law_a_put_field_is_read_back(fields, "image_id"@, vi, other);
    law_a_put_field_is_read_back(a, "content_hash"@, vh, other);
    law_a_put_field_is_read_back(a, "content_hash"@, vh, "image_id"@);
    law_a_put_field_is_read_back(b, "local_path"@, vp, other);
    law_a_put_field_is_read_back(b, "local_path"@, vp, "image_id"@);
    law_a_put_field_is_read_back(b, "local_path"@, vp, "content_hash"@);
    law_a_put_field_is_read_back(c, "description"@, vd, other);
    law_a_put_field_is_read_back(c, "description"@, vd, "image_id"@);
    law_a_put_field_is_read_back(c, "description"@, vd, "content_hash"@);
    law_a_put_field_is_read_back(c, "description"@, vd, "local_path"@);
}

} // verus!
