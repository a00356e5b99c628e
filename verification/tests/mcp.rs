use deeper::mcp::{
    classify_sse_event, content_to_text, disabled_summary, failed_summary, format_tool_result, is_mcp_provider,
    mcp_tool_naming, normalize, reuse_connection, sanitize_name, server_fingerprint, split_headers, sse_stream_url,
    stdio_launch, summary_from_namings, synced_summary, unique_tool_name, HeaderPair, McpContent, McpError, McpServerInput, McpServerRecord, SseAction,
    ToolReply,
};

fn input(name: &str, transport: &str, command: &str, url: &str) -> McpServerInput {
    McpServerInput {
        name: name.to_string(),
        description: " d ".to_string(),
        transport: transport.to_string(),
        command: command.to_string(),
        args: r#"["-y","pkg"]"#.to_string(),
        url: url.to_string(),
        headers: "[]".to_string(),
        env: r#"{"A":"1"}"#.to_string(),
    }
}

fn record() -> McpServerRecord {
    McpServerRecord {
        id: 1,
        name: "fs".to_string(),
        description: String::new(),
        transport: "stdio".to_string(),
        command: "npx".to_string(),
        args: "[]".to_string(),
        url: String::new(),
        headers: "{}".to_string(),
        env: "{}".to_string(),
        enabled: true,
        created_at: 1,
        updated_at: 99,
    }
}

#[test]
fn provider_and_error_text() {
    assert!(is_mcp_provider("mcp"));
    assert!(!is_mcp_provider("builtin"));
    assert_eq!(McpError("closed".to_string()).message(), "closed");
}

#[test]
fn sync_summaries() {
    let s = synced_summary(3, "fs".to_string(), vec!["fs-read".to_string(), "fs-write".to_string()]);
    assert!(s.ok);
    assert_eq!(s.tool_count, 2);
    let d = disabled_summary(3, "fs".to_string());
    assert!(d.ok && d.tool_count == 0 && d.error.is_none());
    let f = failed_summary(3, "fs".to_string(), "spawn failed".to_string());
    assert!(!f.ok);
    assert_eq!(f.error.as_deref(), Some("spawn failed"));
}

#[test]
fn names_are_cleaned() {
    assert_eq!(sanitize_name("File System!"), "file-system");
    assert_eq!(sanitize_name("--a__b--"), "a__b");
    assert_eq!(sanitize_name("中文"), "tool");
    assert_eq!(sanitize_name("a  /  b"), "a-b");
}

#[test]
fn clashing_names_get_the_server_id() {
    assert_eq!(unique_tool_name("fs-read", 7, false), "fs-read");
    assert_eq!(unique_tool_name("fs-read", 7, true), "fs-read-7");
}

#[test]
fn tool_naming() {
    let n = mcp_tool_naming(" My FS ", "read_file", Some("Read".to_string()), None);
    assert_eq!(n.base_name, "my-fs-read_file");
    assert_eq!(n.label, "My FS-Read");
    assert_eq!(n.description, "MCP 工具( My FS ): read_file");
    let m = mcp_tool_naming("fs", "x", None, Some("desc".to_string()));
    assert_eq!(m.label, "fs-x");
    assert_eq!(m.description, "desc");
}

#[test]
fn server_configuration_is_checked() {
    assert_eq!(normalize(&input(" ", "stdio", "npx", "")).err().as_deref(), Some("MCP 名称不能为空"));
    assert_eq!(
        normalize(&input("a", "ws", "", "")).err().as_deref(),
        Some("传输方式无效: 可选 stdio / sse / http")
    );
    assert_eq!(normalize(&input("a", "stdio", " ", "")).err().as_deref(), Some("stdio 传输需要填写启动命令"));
    assert_eq!(normalize(&input("a", "sse", "", "")).err().as_deref(), Some("sse/http 传输需要填写服务器地址"));
    let ok = normalize(&input(" a ", " stdio ", " npx ", "")).ok().unwrap();
    assert_eq!(ok.name, "a");
    assert_eq!(ok.transport, "stdio");
    assert_eq!(ok.command, "npx");
    assert_eq!(ok.description, "d");
    assert_eq!(ok.args, r#"["-y","pkg"]"#);
    assert_eq!(ok.headers, "{}");
    assert_eq!(ok.env, r#"{"A":"1"}"#);
}

#[test]
fn authorization_is_set_apart() {
    let pairs = vec![
        HeaderPair { name: "X-Key".to_string(), value: "1".to_string() },
        HeaderPair { name: "authorization".to_string(), value: "Bearer  tok ".to_string() },
    ];
    let (auth, rest) = split_headers(pairs);
    assert_eq!(auth.as_deref(), Some("tok"));
    assert_eq!(rest.len(), 1);
    assert_eq!(rest[0].name, "X-Key");
    let (none, all) = split_headers(vec![HeaderPair { name: "A".to_string(), value: "b".to_string() }]);
    assert!(none.is_none());
    assert_eq!(all.len(), 1);
}

#[test]
fn sse_addresses() {
    assert_eq!(sse_stream_url(" http://h/sse ").unwrap(), "http://h/sse?event");
    assert_eq!(sse_stream_url("http://h/sse?x=1").unwrap(), "http://h/sse?x=1&event");
    assert_eq!(sse_stream_url("  ").err().as_deref(), Some("sse 传输缺少服务器地址"));
}

#[test]
fn sse_events() {
    assert!(matches!(classify_sse_event(Some("endpoint"), Some(" /msg ")), SseAction::Endpoint(ref e) if e == "/msg"));
    assert!(matches!(classify_sse_event(Some("message"), Some("{}")), SseAction::Message(ref m) if m == "{}"));
    assert!(matches!(classify_sse_event(Some("ping"), Some("x")), SseAction::Ignore));
    assert!(matches!(classify_sse_event(None, Some("https://h/m")), SseAction::Endpoint(_)));
    assert!(matches!(classify_sse_event(None, Some("{\"id\":1}")), SseAction::Message(_)));
    assert!(matches!(classify_sse_event(Some("endpoint"), None), SseAction::Ignore));
}

#[test]
fn tool_replies() {
    let content = vec![
        McpContent::Text("hello".to_string()),
        McpContent::Image("image/png".to_string(), 12),
        McpContent::ResourceLink("file:///a".to_string()),
    ];
    assert_eq!(content_to_text(&content), "hello\n[image: image/png 数据 12 字节]\n[resource link: file:///a]");
    assert_eq!(format_tool_result(&vec![], Some(true), None).err().as_deref(), Some("MCP 工具执行失败"));
    assert!(matches!(format_tool_result(&content, None, Some("{\"a\":1}".to_string())), Ok(ToolReply::Structured(_))));
    assert!(matches!(format_tool_result(&content, Some(false), None), Ok(ToolReply::Text(_))));
    assert!(matches!(format_tool_result(&vec![], None, None), Ok(ToolReply::Done)));
}

#[test]
fn cached_connections() {
    let r = record();
    let f = server_fingerprint(&r);
    assert_eq!(f, "stdio|npx|[]||{}|{}|true|99");
    assert!(reuse_connection(&f, &r, false));
    assert!(!reuse_connection(&f, &r, true));
    assert!(!reuse_connection("other", &r, false));
}

#[test]
fn cleaning_a_clean_name_keeps_it() {
    for raw in ["File System!", "--a__b--", "中文", "a  /  b", "x-y", "A1_b2"] {
        let once = sanitize_name(raw);
        assert_eq!(sanitize_name(&once), once);
    }
}

#[test]
fn stdio_servers_start_with_text_arguments() {
    let (command, args) = stdio_launch(" npx ", r#"["-y", 3, "server", null]"#).unwrap();
    assert_eq!(command, "npx");
    assert_eq!(args, vec!["-y".to_string(), "server".to_string()]);
    let (_, none) = stdio_launch("node", "{}").unwrap();
    assert!(none.is_empty());
    assert_eq!(stdio_launch("  ", "[]").err().as_deref(), Some("stdio 传输缺少启动命令"));
}

#[test]
fn sync_summary_lists_labels_in_order() {
    let namings = vec![
        mcp_tool_naming("Files ", "read_file", None, None),
        mcp_tool_naming("Files ", "write", Some("Write a file".to_string()), Some("writes".to_string())),
    ];
    let s = summary_from_namings(7, "Files ".to_string(), &namings);
    assert!(s.ok);
    assert_eq!(s.server_id, 7);
    assert_eq!(s.tool_count, 2);
    assert_eq!(s.tools, vec!["Files-read_file".to_string(), "Files-Write a file".to_string()]);
    assert!(s.error.is_none());
}
