use cortex::ai::errors::{
    find_message, map_codex_error, map_openai_error, read_error, send_error, try_map_error, Service,
};
use cortex::ai::openai::{
    build_codex_request, build_codex_stream_request, build_openai_request,
    build_openai_stream_request,
};
use cortex::ai::replies::{read_answer, read_codex_reply, read_openai_reply};
use cortex::types::ServiceMessage;
use serde_json::Value;

fn sample_messages() -> Vec<ServiceMessage> {
    vec![ServiceMessage {
        role: "user".to_string(),
        content: "hello".to_string(),
    }]
}

#[test]
fn test_build_request_bearer_auth() {
    let msgs = sample_messages();
    let (url, headers, body) = build_openai_request("sk-test", "gpt-4o", 100, "sys", &msgs);

    assert_eq!(url, "https://api.openai.com/v1/chat/completions");

    let auth = headers.iter().find(|(k, _)| k == "Authorization").map(|(_, v)| v.as_str());
    assert_eq!(auth, Some("Bearer sk-test"), "Got: {:?}", headers);

    // Ensure body has no top-level "system" field (OpenAI shape)
    assert!(body.get("system").is_none(), "OpenAI body must not have top-level system field");
}

#[test]
fn test_build_request_system_as_first_message() {
    let msgs = sample_messages();
    let (_, _, body) = build_openai_request("sk-test", "gpt-4o", 100, "system content", &msgs);

    let messages = body["messages"].as_array().unwrap();
    assert_eq!(messages[0]["role"], "system");
    assert_eq!(messages[0]["content"], "system content");
    assert_eq!(messages[1]["role"], "user");
    assert_eq!(messages[1]["content"], "hello");
}

#[test]
fn test_build_request_model_field() {
    let msgs = sample_messages();
    let (_, _, body) = build_openai_request("sk-test", "gpt-4o", 256, "sys", &msgs);

    assert_eq!(body["model"], "gpt-4o");
    assert_eq!(body["max_tokens"], 256);
}

#[test]
fn test_map_openai_error_401() {
    let msg = map_openai_error(401, "");
    assert!(msg.contains("Invalid OpenAI"), "Got: {}", msg);
}

#[test]
fn test_map_openai_error_429() {
    let msg = map_openai_error(429, "");
    assert!(msg.contains("rate limit"), "Got: {}", msg);
}

#[test]
fn test_map_openai_error_uses_body_message() {
    let body = r#"{"error":{"message":"model not found","type":"invalid_request_error"}}"#;
    let msg = map_openai_error(400, body);
    assert!(msg.contains("model not found"), "Got: {}", msg);
}

#[test]
fn test_build_codex_request_uses_chatgpt_endpoint() {
    let msgs = sample_messages();
    let (url, headers, body) = build_codex_request("bearer_tok", "gpt-5", 100, "sys", &msgs);

    // Must NOT use api.openai.com (that's for API-key auth)
    assert!(
        url.contains("chatgpt.com/backend-api/codex/responses"),
        "Codex endpoint must be chatgpt.com/backend-api/codex/responses, got: {}",
        url
    );

    let auth = headers.iter().find(|(k, _)| k == "Authorization").map(|(_, v)| v.as_str());
    assert_eq!(auth, Some("Bearer bearer_tok"), "Got: {:?}", headers);

    // Responses API shape: "input" array, not "messages"
    assert!(body.get("input").is_some(), "Codex body must have 'input' field (Responses API)");
    assert!(
        body.get("messages").is_none(),
        "Codex body must NOT have 'messages' (Chat Completions API field)"
    );
    assert!(body.get("stream").is_some(), "Codex body must have 'stream' field");
    assert_eq!(body["stream"], false, "stream must be false for non-streaming");
    // max_output_tokens is NOT a supported parameter on this API.
    assert!(
        body.get("max_output_tokens").is_none(),
        "Codex body must NOT have 'max_output_tokens'"
    );
}

#[test]
fn test_build_codex_request_sets_store_false() {
    let msgs = sample_messages();
    let (_, _, body) = build_codex_request("tok", "gpt-5.6-terra", 100, "sys", &msgs);
    assert_eq!(
        body["store"], false,
        "store must be explicitly false for ChatGPT-auth requests"
    );
}

#[test]
fn test_build_codex_stream_request_also_sets_store_false() {
    let msgs = sample_messages();
    let (_, _, body) = build_codex_stream_request("tok", "gpt-5.6-terra", 100, "sys", &msgs);
    assert_eq!(body["store"], false);
    assert_eq!(body["stream"], true);
}

#[test]
fn test_build_codex_request_system_as_top_level_instructions() {
    let msgs = sample_messages();
    let (_, _, body) = build_codex_request("tok", "gpt-5.6-terra", 100, "system content", &msgs);

    assert_eq!(body["instructions"], "system content");

    let input = body["input"].as_array().unwrap();
    assert_eq!(
        input.len(),
        1,
        "input should only contain message turns, not the system prompt"
    );
    assert_eq!(input[0]["role"], "user");
    assert_eq!(input[0]["type"], "message");
    assert_eq!(input[0]["content"][0]["type"], "input_text");
    assert_eq!(input[0]["content"][0]["text"], "hello");
}

#[test]
fn test_build_codex_request_empty_system_falls_back_to_default_instructions() {
    let msgs = sample_messages();
    let (_, _, body) = build_codex_request("tok", "gpt-5.6-terra", 100, "", &msgs);

    // instructions is required by the API: it must never be empty.
    assert!(!body["instructions"].as_str().unwrap().is_empty());

    let input = body["input"].as_array().unwrap();
    assert_eq!(input.len(), 1);
    assert_eq!(input[0]["role"], "user");
}

#[test]
fn test_build_codex_request_required_fields_present() {
    let msgs = sample_messages();
    let (_, _, body) = build_codex_request("tok", "gpt-5.6-terra", 100, "sys", &msgs);

    assert!(body.get("tools").is_some());
    assert!(body.get("tool_choice").is_some());
    assert!(body.get("parallel_tool_calls").is_some());
    assert!(body.get("reasoning").is_some());
    assert!(body.get("instructions").is_some());
}

#[test]
fn test_build_openai_stream_request_adds_stream_flag() {
    let msgs = sample_messages();
    let (url, _, body) = build_openai_stream_request("sk-test", "gpt-4o", 100, "sys", &msgs);

    assert_eq!(url, "https://api.openai.com/v1/chat/completions");
    assert_eq!(body["stream"], true);
    assert_eq!(body["stream_options"]["include_usage"], true);
}

#[test]
fn test_build_codex_stream_request_sets_stream_true() {
    let msgs = sample_messages();
    let (url, _, body) = build_codex_stream_request("tok", "gpt-5", 100, "sys", &msgs);

    assert!(url.contains("chatgpt.com/backend-api/codex/responses"));
    assert_eq!(body["stream"], true);
}

fn json(text: &str) -> Value {
    serde_json::from_str(text).unwrap()
}

#[test]
fn codex_body_is_exactly_this() {
    let msgs = sample_messages();
    let (url, headers, body) = build_codex_request("t", "m", 7, "", &msgs);
    assert_eq!(url, "https://chatgpt.com/backend-api/codex/responses");
    assert_eq!(
        headers,
        vec![
            ("Authorization".to_string(), "Bearer t".to_string()),
            ("Content-Type".to_string(), "application/json".to_string()),
        ]
    );
    let whole = json(
        r#"{"model":"m","instructions":"You are a helpful assistant.",
            "input":[{"type":"message","role":"user",
                      "content":[{"type":"input_text","text":"hello"}]}],
            "tools":[],"tool_choice":"auto","parallel_tool_calls":false,
            "reasoning":{"summary":"auto"},"store":false,"stream":false}"#,
    );
    assert_eq!(body, whole);
    let (_, _, mut stream) = build_codex_stream_request("t", "m", 7, "", &msgs);
    assert_eq!(stream["stream"], true);
    stream["stream"] = Value::Bool(false);
    assert_eq!(stream, whole);
}

#[test]
fn openai_body_is_exactly_this() {
    let msgs = sample_messages();
    let (_, headers, body) = build_openai_request("t", "m", 7, "s", &msgs);
    assert_eq!(headers.len(), 2);
    assert_eq!(headers[1], ("Content-Type".to_string(), "application/json".to_string()));
    let whole = json(
        r#"{"model":"m","max_tokens":7,
            "messages":[{"role":"system","content":"s"},{"role":"user","content":"hello"}]}"#,
    );
    assert_eq!(body, whole);
    let (_, _, stream) = build_openai_stream_request("t", "m", 7, "s", &msgs);
    let streamed = json(
        r#"{"model":"m","max_tokens":7,
            "messages":[{"role":"system","content":"s"},{"role":"user","content":"hello"}],
            "stream":true,"stream_options":{"include_usage":true}}"#,
    );
    assert_eq!(stream, streamed);
}

#[test]
fn every_known_status_has_its_text() {
    let chatgpt = Service::ChatGpt;
    let openai = Service::OpenAi;
    assert_eq!(
        map_codex_error(401, ""),
        "ChatGPT token invalid or expired. Please sign in again via Settings."
    );
    assert_eq!(
        map_codex_error(403, ""),
        "ChatGPT token does not have the required permissions."
    );
    assert_eq!(map_codex_error(429, ""), "ChatGPT rate limit — try again shortly.");
    assert_eq!(map_openai_error(401, ""), "Invalid OpenAI API key or bearer token.");
    assert_eq!(map_openai_error(403, ""), "Token does not have the required permissions.");
    assert_eq!(map_openai_error(429, ""), "OpenAI rate limit — try again shortly.");
    for status in [500u16, 503, 599] {
        assert_eq!(
            map_codex_error(status, ""),
            "ChatGPT service unavailable. Try again later."
        );
        assert_eq!(
            map_openai_error(status, ""),
            "OpenAI service unavailable. Try again later."
        );
    }
    assert_eq!(map_codex_error(600, "x"), "ChatGPT Codex error (600): x");
    assert_eq!(map_openai_error(499, "x"), "OpenAI API error (499): x");
    let split = format!("{}é", "a".repeat(199));
    assert_eq!(
        try_map_error(chatgpt, 429, &split),
        Some("ChatGPT rate limit — try again shortly.".to_string())
    );
    assert_eq!(try_map_error(openai, 400, &split), None);
}

#[test]
fn a_message_in_the_body_is_passed_on() {
    let long = "é".repeat(300);
    let body = format!("{{\"error\":{{\"message\":\"{}\"}}}}", long);
    assert_eq!(map_codex_error(400, &body), "é".repeat(200));
    assert_eq!(find_message(&body), Some(long));
    assert_eq!(find_message("{not json"), None);
    assert_eq!(find_message("{\"error\":{\"message\":5}}"), None);
    assert_eq!(find_message("{\"error\":\"text\"}"), None);
    assert_eq!(find_message("[]"), None);
}

#[test]
fn a_body_without_message_is_cut_to_two_hundred_bytes() {
    let body = "x".repeat(250);
    assert_eq!(
        map_openai_error(404, &body),
        format!("OpenAI API error (404): {}", "x".repeat(200))
    );
    let whole = format!("{}é", "a".repeat(198));
    assert_eq!(
        try_map_error(Service::ChatGpt, 404, &whole),
        Some(format!("ChatGPT Codex error (404): {}", whole))
    );
    let longer = format!("{}ééé", "a".repeat(198));
    assert_eq!(
        try_map_error(Service::ChatGpt, 404, &longer),
        Some(format!("ChatGPT Codex error (404): {}é", "a".repeat(198)))
    );
}

#[test]
fn failures_to_send_or_read_are_told() {
    assert_eq!(
        send_error(Service::ChatGpt, true, "x"),
        "Could not reach ChatGPT — check your connection."
    );
    assert_eq!(
        send_error(Service::OpenAi, true, "x"),
        "Could not reach OpenAI — check your connection."
    );
    assert_eq!(send_error(Service::OpenAi, false, "x"), "Network error: x");
    assert_eq!(read_error("y"), "Read error: y");
}

#[test]
fn codex_reply_is_the_first_output_text_of_the_first_message() {
    let reply = json(
        r#"{"model":"named","usage":{"input_tokens":11,"output_tokens":-2},
            "output":[{"type":"reasoning"},
                      {"type":"message","content":[{"type":"other","text":"no"},
                                                    {"type":"output_text","text":"yes"},
                                                    {"type":"output_text","text":"later"}]},
                      {"type":"message","content":[]}]}"#,
    );
    let r = read_codex_reply(&reply, "asked");
    assert_eq!(r.content, "yes");
    assert_eq!(r.model, "named");
    assert_eq!(r.input_tokens, Some(11));
    assert_eq!(r.output_tokens, None);

    let bare = read_codex_reply(&json("{}"), "asked");
    assert_eq!(bare.content, "");
    assert_eq!(bare.model, "asked");
    assert_eq!(bare.input_tokens, None);

    let first_only = json(
        r#"{"output":[{"type":"message","content":[]},
                      {"type":"message","content":[{"type":"output_text","text":"no"}]}]}"#,
    );
    assert_eq!(read_codex_reply(&first_only, "asked").content, "");
}

#[test]
fn openai_reply_is_the_first_choice() {
    let reply = json(
        r#"{"model":"named","usage":{"prompt_tokens":3,"completion_tokens":4,"total_tokens":7},
            "choices":[{"message":{"content":"yes"}},{"message":{"content":"no"}}]}"#,
    );
    let r = read_openai_reply(&reply, "asked");
    assert_eq!(r.content, "yes");
    assert_eq!(r.model, "named");
    assert_eq!(r.input_tokens, Some(3));
    assert_eq!(r.output_tokens, Some(4));

    let bare = read_openai_reply(&json("[]"), "asked");
    assert_eq!(bare.content, "");
    assert_eq!(bare.model, "asked");
    assert_eq!(bare.input_tokens, Some(0));
    assert_eq!(bare.output_tokens, Some(0));
}

#[test]
fn an_answer_is_read_by_its_status() {
    let text = r#"{"choices":[{"message":{"content":"yes"}}]}"#;
    let ok = read_answer(Service::OpenAi, 200, text, "m").unwrap().unwrap();
    assert_eq!(ok.content, "yes");
    let other = read_answer(Service::ChatGpt, 200, text, "m").unwrap().unwrap();
    assert_eq!(other.content, "");
    let refused = read_answer(Service::OpenAi, 201, text, "m").unwrap().unwrap_err();
    assert_eq!(refused, format!("OpenAI API error (201): {}", text));
    let broken = read_answer(Service::OpenAi, 200, "{", "m").unwrap().unwrap_err();
    let reason = serde_json::from_str::<Value>("{").unwrap_err().to_string();
    assert_eq!(broken, format!("Parse error: {}", reason));
    let split = format!("{}é", "a".repeat(199));
    assert!(read_answer(Service::OpenAi, 404, &split, "m").is_none());
    assert!(read_answer(Service::OpenAi, 200, &split, "m").is_some());
}
