use rolava::ai_provider::gemini::chat::{
    build_request, check_reply_text, parse_response, HistoryError, ReplyError,
};
use rolava::ai_provider::gemini::{
    extract_gemini_text, parse_data_url, parse_text_reply, read_candidate_parts, thinking_config,
    DataUrlError, GeminiProvider, TextReplyError,
};
use rolava::ai_provider::google_aistudio::{
    build_chat_request, limit_chars, parse_chat_reply, parse_search_reply, GoogleAIStudioProvider,
};
use rolava::ai_provider::openai_compatible::{
    build_openai_compatible_request, build_web_search_request,
    parse_openai_compatible_chat_response, OpenAICompatibleError,
};
use rolava::ai_provider::openai_responses::{
    build_openai_responses_request, error_detail, parse_openai_responses_response,
    responses_input, search_answer, OpenAIResponsesProvider, ResponsesError,
};
use rolava::ai_provider::openrouter::{
    build_openrouter_chat_request, parse_openrouter_chat_response, parse_vision_response,
    OpenRouterError,
};
use rolava::ai_provider::{
    context_messages_without_tools, ContextMessage, MessageRole, ReasoningPayload,
    ToolChatContentPart, ToolChatMessage, ToolChatUserContent,
};
use rolava::json::Json;
use rolava::tools::{ToolCall, ToolDefinition};
use serde_json::Value;

fn parsed(text: &str) -> Value {
    serde_json::from_str(text).unwrap()
}

fn to_json(value: &Value) -> Json {
    match value {
        Value::Null => Json::Null,
        Value::Bool(b) => Json::Bool(*b),
        Value::Number(n) => {
            if let Some(u) = n.as_u64() {
                Json::Unsigned(u)
            } else if let Some(i) = n.as_i64() {
                Json::Negative(i)
            } else {
                Json::Decimal(n.to_string())
            }
        }
        Value::String(s) => Json::Text(s.clone()),
        Value::Array(items) => Json::Array(items.iter().map(to_json).collect()),
        Value::Object(fields) => {
            Json::Object(fields.iter().map(|(k, v)| (k.clone(), to_json(v))).collect())
        }
    }
}

fn to_value(json: &Json) -> Value {
    match json {
        Json::Null => Value::Null,
        Json::Bool(b) => Value::from(*b),
        Json::Unsigned(n) => Value::from(*n),
        Json::Negative(n) => Value::from(*n),
        Json::Decimal(t) => parsed(t),
        Json::Text(t) => Value::from(t.clone()),
        Json::Array(items) => Value::Array(items.iter().map(to_value).collect()),
        Json::Object(fields) => {
            Value::Object(fields.iter().map(|(k, v)| (k.clone(), to_value(v))).collect())
        }
    }
}

fn user(text: &str) -> ToolChatMessage {
    ToolChatMessage::User {
        content: ToolChatUserContent::text(text),
    }
}

fn gemini(model: &str, max_tokens: Option<i32>, effort: &str) -> GeminiProvider {
    GeminiProvider::new(
        "unused".to_string(),
        String::new(),
        model.to_string(),
        max_tokens,
        effort.to_string(),
    )
}

fn response(parts: &str) -> Value {
    parsed(&format!(
        "{{\"candidates\": [{{\"finishReason\": \"STOP\", \"content\": {{\"role\": \"model\", \"parts\": {}}}}}]}}",
        parts
    ))
}

#[test]
fn search_uses_generate_content_and_both_builtin_tools() {
    let provider = gemini("models/gemini-2.5-flash", None, "auto");
    assert_eq!(
        provider.generate_content_url(),
        "https://generativelanguage.googleapis.com/v1beta/models/gemini-2.5-flash:generateContent"
    );
    let body = to_value(&provider.web_search_request("查询 https://example.com 原文"));
    assert_eq!(
        body["tools"],
        parsed("[{\"googleSearch\": {}}, {\"urlContext\": {}}]")
    );
    assert_eq!(
        body["contents"][0]["parts"][0]["text"],
        "查询 https://example.com 原文"
    );
    assert!(body.get("toolConfig").is_none());
    assert!(body["generationConfig"].get("responseMimeType").is_none());
}

#[test]
fn reasoning_effort_reaches_chat_and_search_requests() {
    let messages = vec![user("你好")];
    for (effort, level) in [
        ("none", "minimal"),
        ("minimal", "minimal"),
        ("low", "low"),
        ("medium", "medium"),
        ("high", "high"),
        ("xhigh", "high"),
    ] {
        let expected = parsed(&format!("{{\"thinkingLevel\": \"{}\"}}", level));
        let provider = gemini("gemini-model", Some(32000), effort);
        let chat = provider
            .request_body(build_request(&messages, &vec![], Some(32000)).unwrap())
            .unwrap();
        let search = provider
            .request_body(provider.web_search_request("query"))
            .unwrap();
        for body in [to_value(&chat), to_value(&search)] {
            assert_eq!(body["generationConfig"]["thinkingConfig"], expected);
            assert_eq!(body["generationConfig"]["maxOutputTokens"], 32000);
        }
    }
    let provider = gemini("gemini-3-pro-preview", None, "auto");
    let body = to_value(
        &provider
            .request_body(build_request(&messages, &vec![], None).unwrap())
            .unwrap(),
    );
    assert!(body.get("generationConfig").is_none());
}

#[test]
fn unknown_effort_is_refused() {
    assert_eq!(thinking_config("turbo").unwrap_err().effort, "turbo");
    assert_eq!(thinking_config("auto"), Ok(None));
}

#[test]
fn parallel_calls_replay_signatures_and_match_results() {
    let raw = response(
        "[{\"thought\": true, \"text\": \"thinking\", \"thoughtSignature\": \"text-signature\"},
          {\"functionCall\": {\"name\": \"lookup\", \"args\": {\"q\": \"one\"}, \"id\": \"upstream\"}, \"thoughtSignature\": \"call-signature\"},
          {\"functionCall\": {\"name\": \"lookup\", \"args\": {\"q\": \"two\"}}}]",
    );
    let parsed = parse_response(&raw.to_string(), "gemini").unwrap();
    assert_eq!(parsed.content, None);
    assert_eq!(parsed.reasoning.display_text.as_deref(), Some("thinking"));
    assert_ne!(parsed.tool_calls[0].id, parsed.tool_calls[1].id);
    let mut history = vec![
        user("查两项"),
        parsed.assistant_message(),
        ToolChatMessage::Tool {
            tool_call_id: parsed.tool_calls[0].id.clone(),
            content: "one result".into(),
        },
        ToolChatMessage::Tool {
            tool_call_id: parsed.tool_calls[1].id.clone(),
            content: "two result".into(),
        },
    ];
    let body = to_value(&build_request(&history, &vec![], None).unwrap());
    assert_eq!(body["contents"][1], raw["candidates"][0]["content"]);
    let results = &body["contents"][2]["parts"];
    assert_eq!(results[0]["functionResponse"]["id"], "upstream");
    assert!(results[1]["functionResponse"].get("id").is_none());
    assert_eq!(
        results[1]["functionResponse"]["response"]["result"],
        "two result"
    );
    history.truncate(3);
    assert!(build_request(&history, &vec![], None).is_err());
}

#[test]
fn calls_of_two_replies_have_different_ids() {
    let raw = response("[{\"functionCall\": {\"name\": \"lookup\", \"args\": {}}}]").to_string();
    let first = parse_response(&raw, "gemini").unwrap();
    let second = parse_response(&raw, "gemini").unwrap();
    assert!(first.tool_calls[0].id.starts_with("gemini_"));
    assert_ne!(first.tool_calls[0].id, second.tool_calls[0].id);
}

#[test]
fn ordinary_chat_preserves_schema_and_multimodal_order() {
    let schema = parsed(
        "{\"type\": \"object\", \"properties\": {\"q\": {\"type\": \"string\"}}, \"required\": [\"q\"], \"additionalProperties\": false}",
    );
    let tools = vec![ToolDefinition {
        name: "lookup",
        description: "查询",
        parameters: to_json(&schema),
    }];
    let messages = vec![
        ToolChatMessage::System {
            content: "system".into(),
        },
        ToolChatMessage::User {
            content: ToolChatUserContent::from_parts(vec![
                ToolChatContentPart::Text {
                    text: "before".into(),
                },
                ToolChatContentPart::Image {
                    data_url: "data:image/png;base64,YQ==".into(),
                },
                ToolChatContentPart::Text {
                    text: "after".into(),
                },
            ]),
        },
    ];
    let body = to_value(&build_request(&messages, &tools, Some(1024)).unwrap());
    assert_eq!(
        body["contents"][0]["parts"][1]["inlineData"]["mimeType"],
        "image/png"
    );
    assert_eq!(body["contents"][0]["parts"][2]["text"], "after");
    assert_eq!(
        body["tools"][0]["functionDeclarations"][0]["parametersJsonSchema"],
        schema
    );
    assert_eq!(body["toolConfig"]["functionCallingConfig"]["mode"], "AUTO");
    assert_eq!(body["generationConfig"]["maxOutputTokens"], 1024);
    let plain = to_value(&build_request(&vec![user("你好")], &vec![], None).unwrap());
    assert!(plain.get("tools").is_none());
    assert_eq!(plain["contents"][0]["parts"][0]["text"], "你好");
}

#[test]
fn thought_text_never_becomes_answer_and_usage_is_preserved() {
    let mut raw = response(
        "[{\"thought\": true, \"text\": \"private thought\"}, {\"text\": \"answer\", \"thoughtSignature\": \"sig\"}]",
    );
    raw["usageMetadata"] = parsed(
        "{\"promptTokenCount\": 10, \"candidatesTokenCount\": 2, \"totalTokenCount\": 15}",
    );
    let reply = parse_response(&raw.to_string(), "gemini").unwrap();
    assert_eq!(reply.content.as_deref(), Some("answer"));
    assert_eq!(reply.usage.unwrap().total_tokens, Some(15));
    let parts = read_candidate_parts(&to_json(&raw["candidates"][0]), true).unwrap();
    assert_eq!(extract_gemini_text(&parts).as_deref(), Some("answer"));
    let reply = parse_response(&raw.to_string(), "gemini").unwrap();
    let body = to_value(
        &build_request(&vec![reply.assistant_message(), user("继续")], &vec![], None).unwrap(),
    );
    assert_eq!(body["contents"][0], raw["candidates"][0]["content"]);
}

#[test]
fn rejects_incomplete_blocked_and_malformed_responses() {
    for reason in ["MAX_TOKENS", "SAFETY", "MALFORMED_FUNCTION_CALL"] {
        let mut raw = response("[{\"text\": \"partial\"}]");
        raw["candidates"][0]["finishReason"] = Value::from(reason);
        assert!(parse_response(&raw.to_string(), "gemini").is_err());
    }
    for raw in [
        parsed("{\"promptFeedback\": {\"blockReason\": \"SAFETY\"}}"),
        response("[{\"functionCall\": {\"args\": {}}}]"),
        response("[{\"functionCall\": {\"name\": \"lookup\", \"args\": \"bad\"}}]"),
        response("[{\"thought\": true, \"text\": \"no answer\"}]"),
    ] {
        assert!(parse_response(&raw.to_string(), "gemini").is_err());
    }
    let orphan = ToolChatMessage::Tool {
        tool_call_id: "missing".into(),
        content: "result".into(),
    };
    assert!(build_request(&vec![orphan], &vec![], None).is_err());
}

#[test]
fn text_that_is_no_json_is_no_reply() {
    assert_eq!(
        parse_response("no json", "gemini").unwrap_err(),
        ReplyError::InvalidJson
    );
    let fault = "EOF while parsing an object at line 1 column 1".to_string();
    assert_eq!(
        parse_openai_compatible_chat_response("{").unwrap_err(),
        OpenAICompatibleError::Malformed {
            fault: Some(fault.clone())
        }
    );
    assert_eq!(
        parse_openai_responses_response("{").unwrap_err(),
        ResponsesError::InvalidJson {
            fault: fault.clone()
        }
    );
    assert_eq!(
        parse_openrouter_chat_response("{").unwrap_err(),
        OpenRouterError::NotJson { fault }
    );
    assert_eq!(
        parse_openai_compatible_chat_response("5").unwrap_err(),
        OpenAICompatibleError::Malformed { fault: None }
    );
    assert_eq!(
        parse_openrouter_chat_response("{}").unwrap_err(),
        OpenRouterError::Malformed
    );
}

#[test]
fn errors_say_what_is_wrong_with_a_reply() {
    let responses = |text: &str| parse_openai_responses_response(text).unwrap_err().message();
    assert_eq!(
        responses("{"),
        "解析 OpenAI Responses 原始 JSON 失败：EOF while parsing an object at line 1 column 1"
    );
    assert_eq!(
        responses("{\"status\": \"incomplete\", \"incomplete_details\": {\"reason\": \"max_output_tokens\"}}"),
        "OpenAI Responses 生成未完成，状态：Some(\"incomplete\")，原因：max_output_tokens"
    );
    assert_eq!(
        responses("{}"),
        "OpenAI Responses 生成未完成，状态：None，原因：未提供原因"
    );
    assert_eq!(
        responses("{\"status\": \"say \\\"no\\\"\"}"),
        "OpenAI Responses 生成未完成，状态：Some(\"say \\\"no\\\"\")，原因：未提供原因"
    );
    assert_eq!(
        responses("{\"status\": \"completed\", \"output\": []}"),
        "OpenAI Responses 响应既没有文本内容，也没有 function_call（状态：Some(\"completed\")）"
    );
    let compatible = |text: &str| {
        parse_openai_compatible_chat_response(text)
            .unwrap_err()
            .message("OpenAI Compatible 响应")
    };
    assert_eq!(
        compatible("no json"),
        "解析OpenAI Compatible 响应失败：expected ident at line 1 column 2"
    );
    assert_eq!(
        compatible("{\"choices\": [{\"index\": 0, \"message\": {}, \"finish_reason\": \"length\"}]}"),
        "OpenAI Compatible 响应既没有文本内容，也没有 tool_calls，且 finish_reason 不是 stop（当前：Some(\"length\")）"
    );
    let router = |text: &str| {
        parse_openrouter_chat_response(text)
            .unwrap_err()
            .message(false, text)
    };
    assert_eq!(
        router("{"),
        "解析 OpenRouter 原始 JSON 失败：EOF while parsing an object at line 1 column 1\n原始响应：\n{"
    );
    assert_eq!(
        router("{\"choices\": []}"),
        "OpenRouter 响应 choices 为空\n原始响应：\n{\"choices\": []}"
    );
    assert_eq!(
        router("{\"choices\": [{\"index\": 0, \"message\": {}}]}"),
        "OpenRouter 响应既没有文本内容，也没有 tool_calls\n原始响应：\n{\"choices\": [{\"index\": 0, \"message\": {}}]}"
    );
    assert_eq!(
        OpenRouterError::EmptyAnswer.message(true, "{}"),
        "OpenRouter 视觉响应内容为空"
    );
    assert_eq!(
        OpenRouterError::Malformed.message(true, "{}"),
        "解析 OpenRouter 视觉响应失败\n原始响应：\n{}"
    );
}

#[test]
fn a_list_holds_the_fields_in_their_order() {
    let reply = "[\"id\", \"model\", [[0, [\"assistant\", \"你好\", null, [[\"call\", \"function\", [\"f\", \"{}\"]]]], \"stop\"]], [1, 2, 3]]";
    let response = parse_openai_compatible_chat_response(reply).unwrap();
    assert_eq!(response.id.as_deref(), Some("id"));
    assert_eq!(response.content.as_deref(), Some("你好"));
    assert_eq!(response.tool_calls[0].name, "f");
    assert_eq!(response.usage.unwrap().total_tokens, Some(3));
    assert!(parse_openai_compatible_chat_response("[\"id\", \"model\", []]").is_err());
    let routed = "[null, null, [[0, [null, \"好\", null, null, null, null], null]], null]";
    assert_eq!(
        parse_openrouter_chat_response(routed).unwrap().content.as_deref(),
        Some("好")
    );
    assert_eq!(
        parse_text_reply("[[[[[[\"一\"], [\"想\", true], [\"二\", false]]]]]]"),
        Ok("一二".to_string())
    );
}

#[test]
fn text_reasoning_is_replayed_as_openai_reasoning_content() {
    let response = parse_openai_compatible_chat_response(
        r#"{
            "choices": [{
                "index": 0,
                "message": {
                    "role": "assistant",
                    "content": null,
                    "reasoning_content": "原始推理文本",
                    "tool_calls": [{
                        "id": "call_1",
                        "type": "function",
                        "function": {"name": "test_tool", "arguments": "{}"}
                    }]
                },
                "finish_reason": "tool_calls"
            }]
        }"#,
    )
    .unwrap();

    assert_eq!(
        response.reasoning.display_text.as_deref(),
        Some("原始推理文本")
    );
    let messages = vec![response.assistant_message()];
    let request = to_value(&build_openai_compatible_request(
        "test",
        100,
        "medium",
        &messages,
        &vec![],
    ));
    assert_eq!(
        request["messages"][0]["reasoning_content"],
        "原始推理文本"
    );
}

#[test]
fn empty_stop_response_is_valid_no_action() {
    let response = parse_openai_compatible_chat_response(
        r#"{
            "choices": [{
                "index": 0,
                "message": {
                    "role": "assistant",
                    "content": null,
                    "tool_calls": []
                },
                "finish_reason": "stop"
            }]
        }"#,
    )
    .unwrap();

    assert_eq!(response.content, None);
    assert!(response.tool_calls.is_empty());
    assert_eq!(response.finish_reason.as_deref(), Some("stop"));
}

#[test]
fn empty_non_stop_response_is_rejected() {
    let error = parse_openai_compatible_chat_response(
        r#"{
            "choices": [{
                "index": 0,
                "message": {
                    "role": "assistant",
                    "content": null,
                    "tool_calls": []
                },
                "finish_reason": "length"
            }]
        }"#,
    )
    .unwrap_err();

    assert!(error.message("响应").contains("finish_reason 不是 stop"));
}

#[test]
fn web_search_request_uses_official_medium_context_option() {
    let request = to_value(&build_web_search_request(
        "gpt-5-search-api",
        "今天有什么新闻？",
    ));

    assert_eq!(request["model"], "gpt-5-search-api");
    assert_eq!(request["messages"][0]["role"], "user");
    assert_eq!(
        request["web_search_options"]["search_context_size"],
        "medium"
    );
}

#[test]
fn plain_text_user_message_stays_string() {
    let messages = vec![user("纯文本")];
    let request = to_value(&build_openai_compatible_request(
        "test",
        100,
        "medium",
        &messages,
        &vec![],
    ));
    assert_eq!(request["messages"][0]["content"], "纯文本");
}

#[test]
fn multimodal_user_message_uses_high_detail_image_url() {
    let messages = vec![ToolChatMessage::User {
        content: ToolChatUserContent::from_parts(vec![
            ToolChatContentPart::Text {
                text: "看看这张图".to_string(),
            },
            ToolChatContentPart::Image {
                data_url: "data:image/jpeg;base64,abc".to_string(),
            },
        ]),
    }];
    let request = to_value(&build_openai_compatible_request(
        "test",
        100,
        "medium",
        &messages,
        &vec![],
    ));

    assert_eq!(request["messages"][0]["content"][0]["type"], "text");
    assert_eq!(
        request["messages"][0]["content"][1]["image_url"]["url"],
        "data:image/jpeg;base64,abc"
    );
    assert_eq!(
        request["messages"][0]["content"][1]["image_url"]["detail"],
        "high"
    );
}

#[test]
fn rejects_incomplete_output_before_exposing_text_or_tools() {
    let error = parse_openai_responses_response(
        r#"{
        "status":"incomplete",
        "incomplete_details":{"reason":"max_output_tokens"},
        "output":[
            {"type":"message","content":[{"type":"output_text","text":"未写完的回复"}]},
            {"type":"function_call","call_id":"call_1","name":"lookup","arguments":"{}"}
        ]
    }"#,
    )
    .err()
    .expect("未完成响应必须返回错误");
    assert!(error.message().contains("max_output_tokens"));
}

#[test]
fn replays_exact_output_items_before_tool_results() {
    let response = parse_openai_responses_response(
        r#"{
            "id":"resp_1","status":"completed","model":"gpt-test",
            "output":[
                {"type":"reasoning","id":"rs_1","summary":[],"encrypted_content":"abc"},
                {"type":"function_call","id":"fc_1","call_id":"call_1","name":"lookup","arguments":"{}"}
            ]
        }"#,
    )
    .unwrap();
    let input = to_value(&responses_input(&vec![
        response.assistant_message(),
        ToolChatMessage::Tool {
            tool_call_id: "call_1".to_string(),
            content: "done".to_string(),
        },
    ]));

    assert_eq!(
        input.as_array().unwrap()[..2],
        to_value(&response.raw_response)["output"].as_array().unwrap()[..]
    );
    assert_eq!(input[2]["type"], "function_call_output");
    assert_eq!(input[2]["call_id"], "call_1");
}

#[test]
fn failed_reply_says_why() {
    let error = parse_openai_responses_response(
        r#"{"status":"failed","error":{"message":"quota"},"output":[]}"#,
    )
    .unwrap_err();
    assert!(error.message().contains("quota"));
    assert_eq!(error_detail(r#"{"error":{"message":"bad key"}}"#), "bad key");
    assert_eq!(error_detail("plain text"), "plain text");
}

#[test]
fn a_search_needs_a_completed_search_call() {
    let with_search = parse_openai_responses_response(
        r#"{"status":"completed","output":[
            {"type":"web_search_call","status":"completed"},
            {"type":"message","content":[{"type":"output_text","text":"答案"}]}]}"#,
    )
    .unwrap();
    assert_eq!(search_answer(&with_search).unwrap(), "答案");
    let without = parse_openai_responses_response(
        r#"{"status":"completed","output":[
            {"type":"message","content":[{"type":"output_text","text":"答案"}]}]}"#,
    )
    .unwrap();
    assert!(search_answer(&without).is_err());
}

#[test]
fn a_responses_request_names_its_session() {
    let provider = OpenAIResponsesProvider::new(
        "key".to_string(),
        "https://example.com/v1/".to_string(),
        "gpt".to_string(),
        Some(512),
        "high".to_string(),
    );
    assert_eq!(provider.endpoint(), "https://example.com/v1/responses");
    let body = to_value(&build_openai_responses_request(
        "gpt",
        Some(512),
        "high",
        &vec![user("你好")],
        &vec![],
        &Some("session".to_string()),
    ));
    assert_eq!(body["model"], "gpt");
    assert_eq!(body["max_output_tokens"], 512);
    assert_eq!(body["prompt_cache_key"], "session");
    assert!(body.get("tools").is_none());
}

fn search_tool() -> ToolDefinition {
    ToolDefinition {
        name: "web_search",
        description: "搜索互联网",
        parameters: to_json(&parsed(
            r#"{
                "type": "object",
                "properties": { "query": { "type": "string" } },
                "required": ["query"],
                "additionalProperties": false
            }"#,
        )),
    }
}

#[test]
fn serializes_tools_and_tool_history_in_openrouter_format() {
    let tools = vec![search_tool()];
    let reasoning_details = parsed(r#"[{"type": "reasoning.text", "text": "需要实时天气"}]"#);
    let messages = vec![
        user("查询天气"),
        ToolChatMessage::Assistant {
            content: Some(String::new()),
            reasoning: Some(ReasoningPayload::Structured(to_json(&reasoning_details))),
            tool_calls: vec![ToolCall {
                id: "call_1".to_string(),
                name: "web_search".to_string(),
                arguments: r#"{"query":"香港天气"}"#.to_string(),
            }],
        },
        ToolChatMessage::Tool {
            tool_call_id: "call_1".to_string(),
            content: "晴，28 摄氏度".to_string(),
        },
    ];

    let value = to_value(&build_openrouter_chat_request(
        "test-model",
        1024,
        "medium",
        &messages,
        &tools,
    ));

    assert_eq!(value["tool_choice"], "auto");
    assert_eq!(value["reasoning"]["summary"], "auto");
    assert_eq!(value["tools"][0]["type"], "function");
    assert_eq!(value["tools"][0]["function"]["name"], "web_search");
    assert_eq!(value["messages"][1]["role"], "assistant");
    assert_eq!(value["messages"][1]["reasoning_details"], reasoning_details);
    assert!(value["messages"][1].get("reasoning").is_none());
    assert_eq!(
        value["messages"][1]["tool_calls"][0]["function"]["arguments"],
        r#"{"query":"香港天气"}"#
    );
    assert_eq!(value["messages"][2]["role"], "tool");
    assert_eq!(value["messages"][2]["tool_call_id"], "call_1");
}

#[test]
fn omits_tool_fields_for_plain_text_request() {
    let messages = vec![user("需要回复吗")];
    let value = to_value(&build_openrouter_chat_request(
        "test-model",
        128,
        "low",
        &messages,
        &vec![],
    ));

    assert!(value.get("tools").is_none());
    assert!(value.get("tool_choice").is_none());
    assert_eq!(value["reasoning"]["summary"], "auto");
}

#[test]
fn parses_tool_calls_and_preserves_reasoning_details() {
    let response_text = r#"{
        "id": "generation_1",
        "model": "google/gemini-3-flash-preview",
        "choices": [{
            "index": 0,
            "message": {
                "role": "assistant",
                "content": null,
                "reasoning_details": [{
                    "type": "reasoning.text",
                    "text": "需要调用搜索工具"
                }],
                "tool_calls": [{
                    "id": "call_1",
                    "type": "function",
                    "function": {
                        "name": "web_search",
                        "arguments": "{\"query\":\"香港天气\"}"
                    }
                }]
            },
            "finish_reason": "tool_calls"
        }],
        "usage": {
            "prompt_tokens": 10,
            "completion_tokens": 5,
            "total_tokens": 15
        }
    }"#;

    let response = parse_openrouter_chat_response(response_text).unwrap();

    assert_eq!(response.content, None);
    assert_eq!(
        response.reasoning.display_text.as_deref(),
        Some("需要调用搜索工具")
    );
    assert!(response.reasoning.replay.is_some());
    assert_eq!(response.finish_reason.as_deref(), Some("tool_calls"));
    assert_eq!(response.tool_calls.len(), 1);
    assert_eq!(response.tool_calls[0].id, "call_1");
    assert_eq!(response.tool_calls[0].name, "web_search");
    assert_eq!(response.tool_calls[0].arguments, r#"{"query":"香港天气"}"#);
    assert!(matches!(
        response.assistant_message(),
        ToolChatMessage::Assistant {
            reasoning: Some(_),
            tool_calls,
            ..
        } if tool_calls == response.tool_calls
    ));
}

#[test]
fn a_description_needs_a_text() {
    assert_eq!(
        parse_vision_response(r#"{"choices":[{"index":0,"message":{"role":"assistant","content":"一只猫"}}]}"#).unwrap(),
        "一只猫"
    );
    assert_eq!(
        parse_vision_response(r#"{"choices":[{"index":0,"message":{"role":"assistant","content":null}}]}"#),
        Err(OpenRouterError::EmptyAnswer)
    );
    assert_eq!(
        parse_vision_response(r#"{"choices":[]}"#),
        Err(OpenRouterError::EmptyAnswer)
    );
}

#[test]
fn openrouter_replies_that_are_refused() {
    assert_eq!(
        parse_openrouter_chat_response(r#"{"choices":[]}"#).unwrap_err(),
        OpenRouterError::EmptyChoices
    );
    assert_eq!(
        parse_openrouter_chat_response(r#"{"choices":[{"index":0,"message":{"role":"assistant","content":null}}]}"#)
            .unwrap_err(),
        OpenRouterError::EmptyReply
    );
    assert_eq!(
        parse_openrouter_chat_response(
            r#"{"choices":[{"index":0,"message":{"role":"assistant","content":null,"tool_calls":[
                {"id":"a","type":"custom","function":{"name":"b","arguments":"{}"}}]}}]}"#
        )
        .unwrap_err(),
        OpenRouterError::UnsupportedTool {
            kind: "custom".to_string()
        }
    );
}

#[test]
fn compatible_replies_that_are_refused() {
    assert_eq!(
        parse_openai_compatible_chat_response(r#"{"choices":null}"#).unwrap_err(),
        OpenAICompatibleError::MissingChoices
    );
    assert_eq!(
        parse_openai_compatible_chat_response(r#"{"choices":[]}"#).unwrap_err(),
        OpenAICompatibleError::EmptyChoices
    );
    assert_eq!(
        parse_openai_compatible_chat_response(
            r#"{"choices":[{"index":0,"message":{"role":"assistant","content":null,"tool_calls":[
                {"id":"a","type":"custom","function":{"name":"b","arguments":"{}"}}]}}]}"#
        )
        .unwrap_err(),
        OpenAICompatibleError::UnsupportedTool {
            kind: "custom".to_string()
        }
    );
}

#[test]
fn responses_replies_that_are_refused() {
    assert_eq!(
        parse_openai_responses_response(r#"{"status":"completed"}"#).unwrap_err(),
        ResponsesError::MissingOutput
    );
    assert_eq!(
        parse_openai_responses_response(r#"{"status":"completed","output":[]}"#).unwrap_err(),
        ResponsesError::EmptyReply
    );
    let call = |fields: &str| {
        parse_openai_responses_response(&format!(
            "{{\"status\":\"completed\",\"output\":[{{\"type\":\"function_call\"{}}}]}}",
            fields
        ))
        .unwrap_err()
    };
    assert_eq!(call(""), ResponsesError::MissingCallId);
    assert_eq!(
        call(",\"call_id\":\"a\""),
        ResponsesError::MissingCallName
    );
    assert_eq!(
        call(",\"call_id\":\"a\",\"name\":\"b\""),
        ResponsesError::MissingCallArguments
    );
}

#[test]
fn data_urls_name_their_type() {
    let image = parse_data_url("data:image/png;base64,YQ==").unwrap();
    assert_eq!(image.mime_type, "image/png");
    assert_eq!(image.data, "YQ==");
    assert_eq!(
        parse_data_url("https://example.com/a.png"),
        Err(DataUrlError::NotDataUrl)
    );
    assert_eq!(
        parse_data_url("data:image/png,YQ=="),
        Err(DataUrlError::MissingSeparator)
    );
    assert_eq!(
        parse_data_url("data:image/png;base64,"),
        Err(DataUrlError::Empty)
    );
}

#[test]
fn chat_replies_of_google_are_read() {
    let provider = GoogleAIStudioProvider::new(
        "key".to_string(),
        String::new(),
        "gemini-pro".to_string(),
        100,
    );
    assert_eq!(
        provider.generate_content_url(),
        "https://generativelanguage.googleapis.com/v1beta/models/gemini-pro:generateContent"
    );
    let body = to_value(&build_chat_request(
        &vec![
            ContextMessage {
                role: MessageRole::System,
                content: "规则".to_string(),
            },
            ContextMessage {
                role: MessageRole::User,
                content: "你好".to_string(),
            },
        ],
        100,
    ));
    assert_eq!(body["generationConfig"]["maxOutputTokens"], 100);
    assert_eq!(body["contents"][0]["parts"][0]["text"], "你好");
    let reply = parse_chat_reply(&response("[{\"text\": \"回答\"}]").to_string(), "gemini-pro")
        .unwrap();
    assert_eq!(reply.content, "回答");
    assert_eq!(
        parse_chat_reply("{\"candidates\": []}", "gemini-pro").unwrap_err(),
        TextReplyError::Empty
    );
    assert_eq!(
        parse_search_reply(&response("[{\"text\": \"  \"}]").to_string()).unwrap_err(),
        TextReplyError::Empty
    );
}

#[test]
fn long_texts_are_cut() {
    assert_eq!(limit_chars("短文本", 3), "短文本");
    assert_eq!(limit_chars("一二三四", 3), "一二三...");
}

#[test]
fn tools_do_not_fit_a_plain_conversation() {
    let plain = context_messages_without_tools(&vec![
        ToolChatMessage::System {
            content: "规则".to_string(),
        },
        user("你好"),
    ])
    .unwrap();
    assert_eq!(plain[1].role, MessageRole::User);
    assert_eq!(plain[1].content, "你好");
    assert!(context_messages_without_tools(&vec![ToolChatMessage::Tool {
        tool_call_id: "call".to_string(),
        content: "结果".to_string(),
    }])
    .is_err());
}

fn assistant(id: &str, name: &str, arguments: &str) -> ToolChatMessage {
    ToolChatMessage::Assistant {
        content: None,
        reasoning: None,
        tool_calls: vec![ToolCall {
            id: id.to_string(),
            name: name.to_string(),
            arguments: arguments.to_string(),
        }],
    }
}

fn result_of(id: &str) -> ToolChatMessage {
    ToolChatMessage::Tool {
        tool_call_id: id.to_string(),
        content: "result".to_string(),
    }
}

#[test]
fn histories_that_make_no_request() {
    let refused = |messages: Vec<ToolChatMessage>| {
        build_request(&messages, &vec![], None).unwrap_err()
    };
    assert_eq!(
        refused(vec![result_of("missing")]),
        HistoryError::OrphanResult {
            id: "missing".to_string()
        }
    );
    assert_eq!(
        refused(vec![assistant("a", "lookup", "{}")]),
        HistoryError::UnansweredCalls
    );
    assert_eq!(
        refused(vec![assistant("a", "lookup", "no json")]),
        HistoryError::InvalidArguments
    );
    assert_eq!(
        refused(vec![assistant("a", "lookup", "[]")]),
        HistoryError::ArgumentsNotObject
    );
    assert_eq!(
        refused(vec![ToolChatMessage::User {
            content: ToolChatUserContent::from_parts(vec![ToolChatContentPart::Image {
                data_url: "https://example.com".to_string()
            }]),
        }]),
        HistoryError::Image(DataUrlError::NotDataUrl)
    );
    assert!(build_request(
        &vec![assistant("a", "lookup", "{}"), result_of("a")],
        &vec![],
        None
    )
    .is_ok());
}

#[test]
fn gemini_replies_that_are_refused() {
    let refused = |raw: &str| parse_response(raw, "gemini").unwrap_err();
    assert_eq!(
        refused("{\"error\": {\"message\": \"quota\"}}"),
        ReplyError::Reported
    );
    assert_eq!(refused("{}"), ReplyError::MissingCandidate);
    assert_eq!(
        refused("{\"candidates\": [{\"finishReason\": \"SAFETY\"}]}"),
        ReplyError::Unfinished
    );
    assert_eq!(
        refused("{\"candidates\": [{\"finishReason\": \"STOP\"}]}"),
        ReplyError::MissingParts
    );
    assert_eq!(
        refused(&response("[{\"functionCall\": {\"args\": {}}}]").to_string()),
        ReplyError::MissingCallName
    );
    assert_eq!(
        refused(&response("[{\"functionCall\": {\"name\": \"a\", \"args\": 1}}]").to_string()),
        ReplyError::ArgumentsNotObject
    );
    assert_eq!(refused(&response("[]").to_string()), ReplyError::Empty);
}

#[test]
fn text_replies_tell_what_is_missing() {
    assert_eq!(
        parse_text_reply(&response("[{\"text\": \"回答\"}]").to_string()).unwrap(),
        "回答"
    );
    assert_eq!(
        parse_text_reply("{\"candidates\": []}").unwrap_err(),
        TextReplyError::Empty
    );
    assert_eq!(parse_text_reply("[").unwrap_err(), TextReplyError::Malformed);
}

#[test]
fn gemini_errors_are_told_in_words() {
    let unfinished = "{\"candidates\":[{\"finishReason\":\"SAFETY\"}]}";
    assert_eq!(check_reply_text(unfinished), Err(ReplyError::Unfinished));
    assert_eq!(
        ReplyError::Unfinished.message(unfinished),
        format!("Gemini 响应未正常完成：{unfinished}")
    );
    let reported = "{\"error\": {\"code\": 429}}";
    assert_eq!(check_reply_text(reported), Err(ReplyError::Reported));
    assert_eq!(ReplyError::Reported.message(reported), "Gemini 响应错误：{\"code\":429}");
    assert_eq!(check_reply_text("{}"), Err(ReplyError::MissingCandidate));
    assert_eq!(ReplyError::MissingCandidate.message("{}"), "Gemini 响应缺少候选内容：{}");
    assert_eq!(check_reply_text("["), Err(ReplyError::InvalidJson));
    assert_eq!(ReplyError::InvalidJson.message("["), "解析 Gemini 响应失败");
    assert_eq!(ReplyError::MissingParts.message("{}"), "Gemini 响应缺少 parts");
    assert_eq!(ReplyError::MissingCallName.message("{}"), "Gemini functionCall 缺少名称");
    assert_eq!(
        ReplyError::ArgumentsNotObject.message("{}"),
        "Gemini functionCall.args 必须是对象"
    );
    assert_eq!(ReplyError::Empty.message("{}"), "Gemini 响应内容为空");
    let finished =
        "{\"candidates\":[{\"finishReason\":\"STOP\",\"content\":{\"parts\":[]}}]}";
    assert_eq!(check_reply_text(finished), Ok(()));
}

#[test]
fn gemini_requests_tell_what_is_wrong_with_a_history() {
    assert_eq!(
        HistoryError::OrphanResult { id: "call_1".to_string() }.message(),
        "Gemini 工具结果缺少对应调用：call_1"
    );
    assert_eq!(
        HistoryError::DuplicateCall { id: "call_2".to_string() }.message(),
        "Gemini 历史含重复的未完成工具调用：call_2"
    );
    assert_eq!(HistoryError::UnansweredCalls.message(), "Gemini 历史存在缺少结果的工具调用");
    assert_eq!(
        HistoryError::Image(DataUrlError::NotDataUrl).message(),
        "Gemini 视觉请求只支持 data URL 图片"
    );
    assert_eq!(
        DataUrlError::NotDataUrl.message("Google AI Studio"),
        "Google AI Studio 视觉请求只支持 data URL 图片"
    );
    assert_eq!(
        DataUrlError::MissingSeparator.message("Gemini"),
        "图片 data URL 缺少 ;base64, 分隔符"
    );
    assert_eq!(
        DataUrlError::Empty.message("Gemini"),
        "图片 data URL 的 MIME 类型或数据为空"
    );
    assert_eq!(TextReplyError::Empty.message("Gemini 视觉响应"), "Gemini 视觉响应内容为空");
    assert_eq!(TextReplyError::Malformed.message("Gemini 视觉响应"), "解析 Gemini 视觉响应失败");
}
