use deeper::context::{
    build_context, context_page, estimate_tokens, recorded_tokens, ContextInsertArgs, ContextListArgs, ContextRow,
    CONTEXT_TOKEN_BUDGET,
};
use deeper::tools::{tool_search_limit, ToolSearchArgs};

fn row(kind: &str, role: Option<&str>, content: &str, tokens: i64) -> ContextRow {
    ContextRow { kind: kind.to_string(), role: role.map(|r| r.to_string()), content: content.to_string(), token_count: tokens }
}

#[test]
fn token_estimates() {
    assert_eq!(estimate_tokens(""), 1);
    assert_eq!(estimate_tokens("abcd"), 1);
    assert_eq!(estimate_tokens("abcde"), 2);
    assert_eq!(estimate_tokens("你好你好你"), 2);
}

#[test]
fn context_keeps_personas_and_recent_talk() {
    let rows = vec![
        row("talk", Some("assistant"), "newest", 5),
        row("person", None, "你是小助手", 3),
        row("talk", Some("user"), "middle", 4),
        row("tts", Some("user"), "ignored", 1),
        row("talk", Some("user"), "oldest", 10),
        row("talk", None, "no role", 1),
    ];
    let built = build_context(&rows, 10);
    let view: Vec<(&str, &str)> = built.messages.iter().map(|m| (m.role.as_str(), m.content.as_str())).collect();
    assert_eq!(view, vec![("system", "你是小助手"), ("user", "middle"), ("assistant", "newest")]);
    assert_eq!(built.used, 5 + 4 + 3);
    assert_eq!(built.total, 5 + 4 + 10 + 3);
}

#[test]
fn newest_talk_is_kept_even_over_budget() {
    let rows = vec![row("talk", Some("user"), "big", 50), row("talk", Some("user"), "older", 1)];
    let built = build_context(&rows, 10);
    assert_eq!(built.messages.len(), 1);
    assert_eq!(built.messages[0].content, "big");
    assert_eq!(built.used, 50);
    assert!(CONTEXT_TOKEN_BUDGET > 0);
}

#[test]
fn context_paging_and_tokens() {
    assert_eq!(context_page(&ContextListArgs { limit: None, offset: None }), (100, 0));
    assert_eq!(context_page(&ContextListArgs { limit: Some(5000), offset: Some(20) }), (1000, 20));
    let args = ContextInsertArgs { kind: "talk".to_string(), role: None, content: "x".to_string(), token_count: None };
    assert_eq!(recorded_tokens(&args), 0);
    let args = ContextInsertArgs { token_count: Some(9), ..args };
    assert_eq!(recorded_tokens(&args), 9);
}

#[test]
fn tool_search_limits() {
    assert_eq!(tool_search_limit(&ToolSearchArgs { query: "q".to_string(), limit: None }), 10);
    assert_eq!(tool_search_limit(&ToolSearchArgs { query: "q".to_string(), limit: Some(3) }), 3);
}
