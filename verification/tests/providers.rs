use deeper::llm::LlmMessage;
use deeper::providers::{
    anthropic_auth_headers, build_chat_models_url, build_chat_url, build_generate_url, build_google_models_url,
    build_messages_url, build_models_url, build_responses_url, join_endpoint, normalize_base_url, normalize_url_with,
    openai_auth_headers, percent_encode, split_conversation, validate_config,
};

fn msg(role: &str, content: &str) -> LlmMessage {
    LlmMessage { role: role.to_string(), content: content.to_string() }
}

#[test]
fn base_urls_are_normalized() {
    assert_eq!(normalize_base_url("  ", "https://api.openai.com"), "https://api.openai.com");
    assert_eq!(normalize_base_url(" api.x.com ", "f"), "https://api.x.com");
    assert_eq!(normalize_base_url("http://localhost:1234", "f"), "http://localhost:1234");
    assert_eq!(normalize_url_with("127.0.0.1:9880", "f", "http://"), "http://127.0.0.1:9880");
}

#[test]
fn endpoints() {
    assert_eq!(join_endpoint("https://h//", "/x"), "https://h/x");
    assert_eq!(build_messages_url("https://api.anthropic.com/"), "https://api.anthropic.com/v1/messages");
    assert_eq!(build_responses_url("https://h"), "https://h/v1/responses");
    assert_eq!(build_models_url("https://h"), "https://h/v1/models");
    assert_eq!(build_chat_url("https://h/v1"), "https://h/v1/chat/completions");
    assert_eq!(build_chat_models_url("https://h"), "https://h/v1/models");
}

#[test]
fn google_urls_encode_model_and_key() {
    assert_eq!(percent_encode("a b/é~"), "a%20b%2F%C3%A9~");
    assert_eq!(
        build_generate_url("https://g/", " k+1 ", "gemini 2"),
        "https://g/v1beta/models/gemini%202:generateContent?key=k%2B1"
    );
    assert_eq!(build_google_models_url("https://g", "  "), "https://g/v1beta/models");
}

#[test]
fn provider_configuration() {
    assert!(validate_config("k", "m").is_ok());
    assert_eq!(
        validate_config(" ", "m").err(),
        Some(("missing_api_key".to_string(), "未填写 API Key".to_string()))
    );
    assert_eq!(validate_config("k", "").err(), Some(("missing_model".to_string(), "未填写模型名".to_string())));
}

#[test]
fn auth_headers() {
    let h = openai_auth_headers(" sk ");
    assert_eq!(h.len(), 2);
    assert_eq!((h[1].name.as_str(), h[1].value.as_str()), ("Authorization", "Bearer sk"));
    let a = anthropic_auth_headers("key");
    assert!(a.iter().any(|x| x.name == "x-api-key" && x.value == "key"));
}

#[test]
fn conversation_is_split_for_providers() {
    let msgs = vec![msg("system", "a"), msg("user", "hi"), msg("system", "b"), msg("assistant", "yo"), msg("tool", "t")];
    let (system, turns) = split_conversation(&msgs, "model");
    assert_eq!(system, "a\nb");
    let roles: Vec<&str> = turns.iter().map(|m| m.role.as_str()).collect();
    assert_eq!(roles, vec!["user", "model", "user"]);
    assert_eq!(turns[1].content, "yo");
}
