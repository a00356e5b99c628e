use deeper::replies::{
    gemini_model_list, gemini_text, gemini_usage, messages_text, openai_model_list, responses_text, sort_texts,
    usage_tokens,
};

#[test]
fn responses_reply_text() {
    let body = r#"{"output":[{"type":"reasoning","content":[{"text":"hidden"}]},
        {"type":"message","content":[{"type":"output_text","text":"Hel"},{"type":"output_text","text":"lo"}]}],
        "usage":{"input_tokens":12,"output_tokens":3}}"#;
    assert_eq!(responses_text(body), "Hello");
    assert_eq!(usage_tokens(body), (Some(12), Some(3)));
    assert_eq!(responses_text("{}"), "");
}

#[test]
fn anthropic_reply_text() {
    let body = r#"{"content":[{"type":"text","text":"Hi"},{"type":"tool_use","text":"x"},{"type":"text","text":"!"}]}"#;
    assert_eq!(messages_text(body), "Hi!");
    assert_eq!(usage_tokens(body), (None, None));
}

#[test]
fn gemini_reply_text() {
    let body = r#"{"candidates":[{"content":{"parts":[{"text":"A"},{"inline":1},{"text":"B"}]}},
        {"content":{"parts":[{"text":"other"}]}}],
        "usageMetadata":{"promptTokenCount":5,"candidatesTokenCount":2}}"#;
    assert_eq!(gemini_text(body), "AB");
    assert_eq!(gemini_usage(body), (Some(5), Some(2)));
    assert_eq!(gemini_text(r#"{"candidates":[]}"#), "");
}

#[test]
fn texts_sort_like_str() {
    let v = vec!["b".to_string(), "B".to_string(), "a".to_string(), "b".to_string(), "中".to_string()];
    assert_eq!(
        sort_texts(v),
        vec!["B".to_string(), "a".to_string(), "b".to_string(), "b".to_string(), "中".to_string()]
    );
}

#[test]
fn provider_model_lists() {
    let openai = r#"{"data":[{"id":"gpt-4o"},{"id":""},{"id":"gpt-4o"},{"object":"model"},{"id":"a"}]}"#;
    assert_eq!(openai_model_list(openai), vec!["a".to_string(), "gpt-4o".to_string(), "gpt-4o".to_string()]);
    let gemini = r#"{"models":[{"name":"models/gemini-pro"},{"name":"models/"},{"name":"tuned"}]}"#;
    assert_eq!(gemini_model_list(gemini), vec!["gemini-pro".to_string(), "tuned".to_string()]);
}
