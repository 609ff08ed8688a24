use image::{DynamicImage, GenericImageView, RgbImage};
use rolava::json::Json;
use rolava::message_enricher::{
    attach_image_info, content_type, draw_image_id, file_ending, hex, image_download_url,
    image_extension, image_file_name, image_indexes, mime_type_from_path, prepare_image_for_vision,
    prepare_vision_image_data_url, replace_next_image_placeholder, resize_order,
    sanitize_description, scale_side, sha256_hex, EnrichedImage, EnrichedIncomingMessage, VisionError,
    VISION_IMAGE_JPEG_QUALITY, VISION_IMAGE_MAX_SIDE,
};
use rolava::repository::db_manager::ReceivedImageRecord;
use rolava::transport::{
    ContentPart, Conversation, ConversationKind, IncomingMessage, MessageContent, Sender,
};

fn enriched(image_id: &str, description: &str) -> EnrichedImage {
    EnrichedImage {
        image_id: image_id.to_string(),
        content_hash: String::new(),
        local_path: String::new(),
        description: description.to_string(),
        needs_description: false,
    }
}

fn png(width: u32, height: u32) -> Vec<u8> {
    let image = DynamicImage::ImageRgb8(RgbImage::new(width, height));
    let mut bytes = Vec::new();
    image
        .write_to(
            &mut std::io::Cursor::new(&mut bytes),
            image::ImageFormat::Png,
        )
        .unwrap();
    bytes
}

#[test]
fn image_context_uses_markdown_attachment_reference() {
    let image = enriched("img_7Kf3aQ9B", "一只白猫趴在窗台上");
    assert_eq!(
        image.context_text(),
        "![一只白猫趴在窗台上](attachment://img_7Kf3aQ9B)"
    );
    assert_eq!(
        EnrichedImage::context_text_for("img_7Kf3aQ9B", ""),
        "![图片](attachment://img_7Kf3aQ9B)"
    );
}

#[test]
fn image_context_escapes_generated_description() {
    let image = enriched("img_A1b2C3d4", r"截图包含 [确定] 和 C:\temp");
    assert_eq!(
        image.context_text(),
        r"![截图包含 \[确定\] 和 C:\\temp](attachment://img_A1b2C3d4)"
    );
}

#[test]
fn image_request_resizes_only_when_longest_side_exceeds_1920() {
    let bytes = png(2400, 1200);
    let payload = prepare_image_for_vision(&bytes, &Some("image/png".to_string())).unwrap();
    let resized = image::load_from_memory(&payload.bytes).unwrap();
    assert_eq!(resized.dimensions(), (VISION_IMAGE_MAX_SIDE, 960));
    assert_eq!(payload.mime_type, "image/jpeg");

    let small = png(1920, 10);
    let kept = prepare_image_for_vision(&small, &Some("image/png".to_string())).unwrap();
    assert_eq!(kept.bytes, small);
    assert_eq!(kept.mime_type, "image/png");
}

#[test]
fn an_image_is_made_smaller_with_its_proportions() {
    let order = resize_order(4000, 2000);
    assert_eq!((order.width, order.height), (1920, 960));
    assert_eq!(order.quality, VISION_IMAGE_JPEG_QUALITY);
    assert_eq!(VISION_IMAGE_JPEG_QUALITY, 82);
    let tall = resize_order(1, 100_000);
    assert_eq!((tall.width, tall.height), (1, 1920));
}

#[test]
fn an_image_becomes_an_address() {
    let bytes = png(1, 1);
    let url = prepare_vision_image_data_url(&bytes, &Some("image/png".to_string())).unwrap();
    assert!(url.starts_with("data:image/png;base64,iVBORw0KGgo"));
    assert_eq!(
        prepare_vision_image_data_url(&vec![1, 2, 3], &None),
        Err(VisionError::Unreadable)
    );
}

#[test]
fn sides_are_rounded_and_never_vanish() {
    assert_eq!(scale_side(1200, 2400, 1920), 960);
    assert_eq!(scale_side(1, 4000, 1920), 1);
    assert_eq!(scale_side(4000, 4000, 1920), 1920);
}

#[test]
fn hashes_are_written_in_hexadecimal() {
    assert_eq!(
        sha256_hex(&b"abc".to_vec()),
        "ba7816bf8f01cfea414140de5dae2223b00361a396177a9cb410ff61f20015ad"
    );
    assert_eq!(hex(&vec![0, 15, 255]), "000fff");
}

#[test]
fn types_of_images() {
    assert_eq!(mime_type_from_path("a/b.PNG"), "image/png");
    assert_eq!(mime_type_from_path("a/b.webp"), "image/webp");
    assert_eq!(mime_type_from_path("a.b/c"), "image/jpeg");
    assert_eq!(file_ending("x.tar.gz").as_deref(), Some("gz"));
    assert_eq!(file_ending(".hidden"), None);
    assert_eq!(image_extension(&Some("image/gif".to_string())), "gif");
    assert_eq!(image_extension(&None), "img");
    assert_eq!(
        image_file_name("img_1", &Some("image/png".to_string())),
        "img_1.png"
    );
    assert_eq!(
        content_type("image/png; charset=binary").as_deref(),
        Some("image/png")
    );
}

#[test]
fn descriptions_are_put_on_one_line() {
    assert_eq!(sanitize_description(" 一只\n 猫 "), "一只 猫");
}

#[test]
fn numbers_of_images_are_drawn_a_few_times() {
    let id = draw_image_id(0).unwrap();
    assert!(id.starts_with("img_"));
    assert_eq!(id.len(), 12);
    assert_ne!(id, draw_image_id(0).unwrap());
    assert_eq!(draw_image_id(u32::MAX), None);
}

#[test]
fn placeholders_are_replaced_one_after_another() {
    assert_eq!(
        replace_next_image_placeholder("看 [图片] 和 [图片]", "A"),
        "看 A 和 [图片]"
    );
    assert_eq!(replace_next_image_placeholder("看 ", "A"), "看 A");
    assert_eq!(replace_next_image_placeholder("  ", "A"), "A");
}

fn object(fields: Vec<(&str, &str)>) -> Json {
    Json::Object(
        fields
            .into_iter()
            .map(|(key, value)| (key.to_string(), Json::Text(value.to_string())))
            .collect(),
    )
}

#[test]
fn an_image_is_fetched_from_its_address() {
    assert_eq!(
        image_download_url(&object(vec![("url", "https://example.com/a.png")])).as_deref(),
        Some("https://example.com/a.png")
    );
    assert_eq!(image_download_url(&object(vec![("file", "a.png")])), None);
}

#[test]
fn a_stored_image_is_described_once() {
    let record = |description: &str| ReceivedImageRecord {
        image_id: "img_1".to_string(),
        content_hash: "hash".to_string(),
        local_path: "a.png".to_string(),
        description: description.to_string(),
    };
    assert!(EnrichedImage::from_record(record(""), true).needs_description);
    assert!(!EnrichedImage::from_record(record(""), false).needs_description);
    assert!(!EnrichedImage::from_record(record("猫"), true).needs_description);
}

#[test]
fn images_of_a_message_are_filled_in() {
    let message = IncomingMessage {
        source: "qq".to_string(),
        bot_id: "1".to_string(),
        message_id: None,
        conversation: Conversation {
            id: "2".to_string(),
            kind: ConversationKind::Direct,
            title: None,
        },
        sender: Sender {
            id: "3".to_string(),
            display_name: "名".to_string(),
            nickname: None,
            role: None,
        },
        content: MessageContent {
            text: "看 [图片]".to_string(),
            parts: vec![
                ContentPart {
                    kind: "text".to_string(),
                    data: object(vec![]),
                },
                ContentPart {
                    kind: "image".to_string(),
                    data: object(vec![("url", "https://example.com/a.png")]),
                },
            ],
        },
        metadata: Json::Null,
        timestamp: 0,
    };
    assert_eq!(image_indexes(&message.content.parts), vec![1]);
    let mut enriched_message = EnrichedIncomingMessage::new(message);
    enriched_message.apply_image(1, Some(enriched("img_1", "一只猫")));
    assert_eq!(
        enriched_message.message.content.text,
        "看 ![一只猫](attachment://img_1)"
    );
    let data = &enriched_message.message.content.parts[1].data;
    assert_eq!(
        data.text_at("image_id").as_deref(),
        Some("img_1")
    );
    let info = attach_image_info(object(vec![]), &enriched("img_2", "狗"));
    assert_eq!(info.text_at("description").as_deref(), Some("狗"));
}
