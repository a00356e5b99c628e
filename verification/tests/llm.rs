use deeper::llm::{
    build_openai_url, config_outcome, error_detail, generate_outcome, rejected_stream, test_outcome, extract_openai_stream_error, is_openai_reasoning_model, truncate_utf8,
    LlmGenerateOutcome, LlmTestOutcome,
};
use deeper::providers::{sends_temperature, token_limit, token_limit_param};
use deeper::stream::extract_usage;

#[test]
fn openai_url_does_not_duplicate_v1() {
    assert_eq!(
        build_openai_url("https://api.example.com/v1/", "responses"),
        "https://api.example.com/v1/responses"
    );
    assert_eq!(
        build_openai_url("https://api.example.com", "chat/completions"),
        "https://api.example.com/v1/chat/completions"
    );
}

#[test]
fn reasoning_model_detection_avoids_gpt_4o_false_positive() {
    assert!(is_openai_reasoning_model("gpt-5-mini"));
    assert!(is_openai_reasoning_model("openai/o3-mini"));
    assert!(!is_openai_reasoning_model("gpt-4o"));
    assert!(!is_openai_reasoning_model("omni-moderation-latest"));
}

#[test]
fn utf8_truncation_stays_on_character_boundary() {
    assert_eq!(truncate_utf8("中文🙂error".to_string(), 5), "中");
    assert_eq!(truncate_utf8("中文🙂error".to_string(), 6), "中文");
    assert_eq!(truncate_utf8("中文🙂error".to_string(), 10), "中文🙂");
}

#[test]
fn extracts_openai_stream_failures() {
    let failed = r#"{"type":"response.failed","response":{"error":{"message":"推理失败"}}}"#;
    assert_eq!(extract_openai_stream_error(failed).as_deref(), Some("推理失败"));
    assert_eq!(extract_openai_stream_error(r#"{"type":"response.completed"}"#), None);
}

#[test]
fn missing_usage_returns_empty_counts() {
    assert_eq!(extract_usage(r#"{"choices":[]}"#), (None, None));
}

#[test]
fn reasoning_models_use_completion_token_limit_without_temperature() {
    assert!(!sends_temperature("o3-mini"));
    assert_eq!(token_limit("o3-mini", Some(128)), Some(("max_completion_tokens", 128)));
    assert_eq!(token_limit_param("o3-mini"), "max_completion_tokens");
}

#[test]
fn regular_models_keep_legacy_chat_parameters() {
    assert!(sends_temperature("gpt-4o"));
    assert_eq!(token_limit("gpt-4o", Some(128)), Some(("max_tokens", 128)));
    assert_eq!(token_limit_param("gpt-4o"), "max_tokens");
    assert_eq!(token_limit("gpt-4o", Some(0)), None);
    assert_eq!(token_limit("gpt-4o", None), None);
}

#[test]
fn openai_url_strips_slashes_around_parts() {
    assert_eq!(build_openai_url("https://h//", "//models"), "https://h/v1/models");
    assert_eq!(build_openai_url("https://h/v1", "models"), "https://h/v1/models");
}

#[test]
fn reasoning_model_detection_trims_and_ignores_case() {
    assert!(is_openai_reasoning_model("  GPT-5 "));
    assert!(is_openai_reasoning_model("O1"));
    assert!(!is_openai_reasoning_model("o"));
    assert!(!is_openai_reasoning_model("ox1"));
}

#[test]
fn truncation_keeps_short_text_and_handles_zero() {
    assert_eq!(truncate_utf8("abc".to_string(), 3), "abc");
    assert_eq!(truncate_utf8("abc".to_string(), 0), "");
    assert_eq!(truncate_utf8("é".to_string(), 1), "");
}

#[test]
fn error_detail_prefers_nested_messages() {
    assert_eq!(error_detail(r#"{"error":{"message":"bad key"}}"#), "bad key");
    assert_eq!(error_detail(r#"{"response":{"error":{"message":"inner"}}}"#), "inner");
    assert_eq!(error_detail(r#"{"message":"top"}"#), "top");
}

#[test]
fn error_detail_falls_back_to_trimmed_body() {
    assert_eq!(error_detail("  plain failure \n"), "plain failure");
    assert_eq!(error_detail("   "), "响应体为空");
    let long = "x".repeat(300);
    assert_eq!(error_detail(&long).len(), 240);
}

#[test]
fn stream_error_for_error_member() {
    assert_eq!(
        extract_openai_stream_error(r#"{"error":{"message":"quota"}}"#).as_deref(),
        Some("quota")
    );
    assert_eq!(
        extract_openai_stream_error(r#"{"type":"error"}"#).as_deref(),
        Some("模型流式响应失败")
    );
    assert_eq!(extract_openai_stream_error(r#"{"error":null}"#), None);
}

#[test]
fn usage_reads_either_naming() {
    assert_eq!(
        extract_usage(r#"{"usage":{"prompt_tokens":3,"completion_tokens":5}}"#),
        (Some(3), Some(5))
    );
    assert_eq!(
        extract_usage(r#"{"usage":{"input_tokens":7,"output_tokens":9}}"#),
        (Some(7), Some(9))
    );
}

#[test]
fn generate_outcome_constructors() {
    let ok = LlmGenerateOutcome::ok("hi".to_string(), Some(1), None);
    assert!(ok.ok);
    assert_eq!(ok.text.as_deref(), Some("hi"));
    assert_eq!(ok.input_tokens, Some(1));
    assert!(ok.error.is_none());
    let err = LlmGenerateOutcome::err_with(Some("http_error"), "boom".to_string());
    assert!(!err.ok);
    assert_eq!(err.error.as_deref(), Some("boom"));
    assert_eq!(err.error_code.as_deref(), Some("http_error"));
    let plain = LlmGenerateOutcome::err("x".to_string());
    assert!(plain.error_code.is_none());
}

#[test]
fn test_outcome_constructors() {
    let ok = LlmTestOutcome::ok(200);
    assert!(ok.ok);
    assert_eq!(ok.status, Some(200));
    let http = LlmTestOutcome::http_err(401);
    assert!(!http.ok);
    assert_eq!(http.error.as_deref(), Some("HTTP 401"));
    assert_eq!(http.error_code.as_deref(), Some("http_error"));
    let client = LlmTestOutcome::client_err_with(Some("network_error"), "down".to_string());
    assert_eq!(client.status, None);
    assert_eq!(client.error_code.as_deref(), Some("network_error"));
}

#[test]
fn generation_outcomes() {
    let ok = generate_outcome("OpenAI Chat", Ok((200, "hi".to_string(), Some(3), Some(4))));
    assert!(ok.ok);
    assert_eq!(ok.text.as_deref(), Some("hi"));
    assert_eq!((ok.input_tokens, ok.output_tokens), (Some(3), Some(4)));
    let net = generate_outcome("OpenAI Chat", Err("无法连接 x".to_string()));
    assert!(!net.ok);
    assert_eq!(net.error.as_deref(), Some("无法连接 x"));
    assert_eq!(net.error_code.as_deref(), Some("network_error"));
    let long = "é".repeat(200);
    let http = generate_outcome("OpenAI Chat", Ok((429, long.clone(), Some(1), None)));
    assert!(!http.ok);
    assert_eq!(http.error_code.as_deref(), Some("http_error"));
    assert_eq!(http.error.unwrap(), format!("OpenAI Chat 接口返回 429: {}", "é".repeat(120)));
    assert_eq!(http.input_tokens, None);
    let short = generate_outcome("Anthropic", Ok((500, "boom".to_string(), None, None)));
    assert_eq!(short.error.as_deref(), Some("Anthropic 接口返回 500: boom"));
}

#[test]
fn configuration_outcomes() {
    let missing_key = config_outcome("  ", "gpt-4o").unwrap();
    assert_eq!(missing_key.error_code.as_deref(), Some("missing_api_key"));
    assert_eq!(missing_key.error.as_deref(), Some("未填写 API Key"));
    let missing_model = config_outcome("sk-1", "").unwrap();
    assert_eq!(missing_model.error_code.as_deref(), Some("missing_model"));
    assert_eq!(missing_model.error.as_deref(), Some("未填写模型名"));
    assert!(config_outcome("sk-1", "gpt-4o").is_none());
}

#[test]
fn connection_test_outcomes() {
    let ok = test_outcome(Ok((200, "{}".to_string())));
    assert!(ok.ok);
    assert_eq!(ok.status, Some(200));
    let http = test_outcome(Ok((401, r#"{"error":{"message":"bad key"}}"#.to_string())));
    assert!(!http.ok);
    assert_eq!(http.status, Some(401));
    assert_eq!(http.error.as_deref(), Some("HTTP 401: bad key"));
    assert_eq!(http.error_code.as_deref(), Some("http_error"));
    let net = test_outcome(Err("down".to_string()));
    assert_eq!(net.error_code.as_deref(), Some("network_error"));
    assert_eq!(net.status, None);
}

#[test]
fn rejected_streams() {
    assert!(rejected_stream(200, "data: x".to_string()).is_none());
    let (reply, end) = rejected_stream(503, "busy".to_string()).unwrap();
    assert_eq!(reply, (503, "busy".to_string(), None, None));
    assert_eq!(end, "HTTP 503");
}
