use rolava::json::{Fields, Items, Json};
use rolava::text::{
    blank, contains_space, contains_text, count_words, decimal, ends_with, first_chars, is_before,
    join, lowered_is, parse_i64, parse_u64, plain_name, replace, signed_decimal, sort_texts,
    split, split_first_word, split_once, split_words, starts_with, strip_prefix, trim,
    trim_end_char, trim_prefix, truncate_utf8,
};
use rolava::text_utils::{truncate_long_text, MAX_TEXT_CHARS};

fn texts(list: &[&str]) -> Vec<String> {
    list.iter().map(|text| text.to_string()).collect()
}

#[test]
fn texts_are_handled_like_the_standard_library_does() {
    for text in ["", " ", " a b ", "\u{3000}全角\u{3000}", "a\u{a0}", "--x--", "models/models/a"] {
        assert_eq!(trim(text), text.trim());
        assert_eq!(blank(text), text.trim().is_empty());
        assert_eq!(trim_prefix(text, "models/"), text.trim_start_matches("models/"));
        assert_eq!(trim_end_char(text, '-'), text.trim_end_matches('-'));
        assert_eq!(
            strip_prefix(text, "--").as_deref(),
            text.strip_prefix("--")
        );
        assert_eq!(starts_with(text, "a"), text.starts_with("a"));
        assert_eq!(ends_with(text, " "), text.ends_with(" "));
        assert_eq!(split_words(text), text.split_whitespace().collect::<Vec<_>>());
        assert_eq!(count_words(text), text.split_whitespace().count());
        assert_eq!(split(text, '-'), text.split('-').collect::<Vec<_>>());
        assert_eq!(contains_text(text, "a"), text.contains("a"));
        assert_eq!(replace(text, "", "."), text.replace("", "."));
        assert_eq!(replace(text, "-", "+-"), text.replace("-", "+-"));
        assert_eq!(contains_space(text), text.contains(char::is_whitespace));
        assert_eq!(lowered_is(text, "a\u{a0}"), text.eq_ignore_ascii_case("a\u{a0}"));
    }
    assert_eq!(
        split_once("a::b::c", "::"),
        Some(("a".to_string(), "b::c".to_string()))
    );
    assert_eq!(join(&texts(&["a", "b"]), ", "), "a, b");
    assert_eq!(first_chars("一二三", 2), "一二");
    assert_eq!(
        split_first_word("reset  now "),
        ("reset".to_string(), "  now ".to_string())
    );
}

#[test]
fn numbers_are_read_and_written() {
    for text in ["0", "+7", "-7", "", "-", "1a", "9223372036854775807", "9223372036854775808", "-9223372036854775808", "00012", " 1"] {
        assert_eq!(parse_i64(text), text.parse::<i64>().ok());
        assert_eq!(parse_u64(text), text.parse::<u64>().ok());
    }
    assert_eq!(decimal(u64::MAX), u64::MAX.to_string());
    assert_eq!(signed_decimal(i64::MIN), i64::MIN.to_string());
    assert_eq!(signed_decimal(-5), "-5");
}

#[test]
fn texts_are_ordered() {
    assert!(is_before("a", "b"));
    assert!(is_before("a", "ab"));
    assert!(!is_before("b", "a"));
    assert!(is_before("Z", "a"));
    assert_eq!(
        sort_texts(texts(&["丙", "b", "甲", "a", "a"])),
        {
            let mut list = texts(&["丙", "b", "甲", "a", "a"]);
            list.sort();
            list
        }
    );
    assert!(plain_name("a_B1", false));
    assert!(!plain_name("a-b", false));
    assert!(plain_name("a-b", true));
}

#[test]
fn long_texts_keep_their_ends() {
    assert_eq!(truncate_utf8("一二三", 7), "一二…");
    assert_eq!(truncate_utf8("abc", 3), "abc");
    let long: String = "头".repeat(MAX_TEXT_CHARS) + &"尾".repeat(5);
    let cut = truncate_long_text(&long);
    assert!(cut.starts_with("头"));
    assert!(cut.ends_with("尾尾尾尾尾"));
    assert!(cut.contains("已截断5个字符"));
    assert_eq!(truncate_long_text("短"), "短");
}

#[test]
fn documents_are_built() {
    let mut inner = Items::new();
    inner.push(Json::integer(-1));
    inner.push(Json::integer(2));
    let mut fields = Fields::new();
    fields.put_text("a", "x");
    fields.put("b", inner.done());
    fields.put_some("c", None);
    let document = fields.done();
    assert_eq!(document.text_at("a").as_deref(), Some("x"));
    assert_eq!(
        document.array_at("b").unwrap(),
        &vec![Json::Negative(-1), Json::Unsigned(2)]
    );
    assert!(document.get("c").is_none());
    let changed = document.copy().set("a", Json::Null);
    assert_eq!(changed.get("a"), Some(&Json::Null));
    assert_eq!(document.text_at("a").as_deref(), Some("x"));
    assert_eq!(document.nested_text_at("b", "a"), None);
}
