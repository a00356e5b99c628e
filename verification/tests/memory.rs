use deeper::memory::{keyword_hit, list_limit, parse_tags, search_limit, summary_limit, MemoryFields};

fn fields(content: &str, kind: &str, tags: &[&str]) -> MemoryFields {
    MemoryFields {
        content: content.to_string(),
        kind: kind.to_string(),
        tags: tags.iter().map(|t| t.to_string()).collect(),
        expires_at: Some(5),
    }
}

#[test]
fn memories_are_checked_and_tidied() {
    let m = fields("  likes tea ", " ", &[" drink ", "", "drink", "tea"]).normalize().ok().unwrap();
    assert_eq!(m.content, "likes tea");
    assert_eq!(m.kind, "fact");
    assert_eq!(m.tags, vec!["drink".to_string(), "tea".to_string()]);
    assert_eq!(m.expires_at, Some(5));
    let p = fields("x", " preference ", &[]).normalize().ok().unwrap();
    assert_eq!(p.kind, "preference");
}

#[test]
fn memory_errors() {
    assert_eq!(fields("   ", "fact", &[]).normalize().err().as_deref(), Some("记忆内容不能为空"));
    assert_eq!(
        fields("x", "dream", &[]).normalize().err().as_deref(),
        Some("记忆类型无效: dream, 可选 fact / preference / project / event / relationship / core")
    );
}

#[test]
fn stored_tags_are_read_back() {
    assert_eq!(parse_tags(Some(" a, ,b ,,c".to_string())), vec!["a".to_string(), "b".to_string(), "c".to_string()]);
    assert!(parse_tags(Some("".to_string())).is_empty());
    assert!(parse_tags(None).is_empty());
}

#[test]
fn limits_are_clamped() {
    assert_eq!(search_limit(None), 20);
    assert_eq!(search_limit(Some(0)), 1);
    assert_eq!(search_limit(Some(999)), 200);
    assert_eq!(list_limit(None), 200);
    assert_eq!(list_limit(Some(5000)), 1000);
    assert_eq!(summary_limit(None), 100);
    assert_eq!(summary_limit(Some(7)), 7);
    assert_eq!(summary_limit(Some(501)), 500);
}

#[test]
fn keyword_matching_ignores_case() {
    let tags = vec!["Travel".to_string()];
    assert!(keyword_hit("  ", "anything", &tags));
    assert!(keyword_hit("TEA", "likes tea", &tags));
    assert!(keyword_hit("travel", "x", &tags));
    assert!(!keyword_hit("coffee", "likes tea", &tags));
}

#[test]
fn checking_twice_changes_nothing() {
    let once = fields("  note ", " event ", &[" x", "y ", "x", " "]).normalize().ok().unwrap();
    let twice = once.normalize().ok().unwrap();
    assert_eq!(twice.content, once.content);
    assert_eq!(twice.kind, once.kind);
    assert_eq!(twice.tags, once.tags);
    assert_eq!(twice.expires_at, once.expires_at);
}
