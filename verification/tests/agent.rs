use deeper::agent::after_generation_checked;
use deeper::agent::{
    after_generation, call_signature, empty_context_outcome, format_results, inject_protocol, note_repeated_failure,
    parse_tool_calls, platform_of, round_limit_outcome, trim_history, truncate_middle, user_records, AgentRunArgs,
    AgentRun, AgentStep, AgentTally, AgentUserMessage, Platform, ToolResult, MAX_ROUNDS,
};
use deeper::llm::{LlmGenerateOutcome, LlmMessage};

fn msg(role: &str, content: &str) -> LlmMessage {
    LlmMessage { role: role.to_string(), content: content.to_string() }
}

#[test]
fn rejects_invalid_tool_arguments() {
    let error = parse_tool_calls(r#"<tool_call name="demo" args='{bad}'></tool_call>"#)
        .err()
        .expect("invalid JSON must not be silently replaced");
    assert!(error.contains("参数不是合法 JSON"));
}

#[test]
fn defaults_only_when_arguments_are_absent() {
    let calls = parse_tool_calls(r#"<tool_call name="demo"></tool_call>"#).unwrap();
    assert_eq!(calls.len(), 1);
    let args: serde_json::Value = serde_json::from_str(&calls[0].args).unwrap();
    assert_eq!(args, serde_json::Value::Object(serde_json::Map::new()));
}

#[test]
fn parses_several_calls_in_order() {
    let text = r#"好的 <tool_call name=" search " args = '{ "q": "x" }'></tool_call>
<tool_call name="open" args="{}"/> <tool_calls> <tool_call args='{}'>"#;
    let calls = parse_tool_calls(text).unwrap();
    assert_eq!(calls.len(), 2);
    assert_eq!(calls[0].name, "search");
    assert_eq!(calls[0].args, r#"{"q":"x"}"#);
    assert_eq!(calls[1].name, "open");
    assert_eq!(calls[1].args, "{}");
}

#[test]
fn no_calls_in_plain_text() {
    assert_eq!(parse_tool_calls("just an answer").unwrap().len(), 0);
    assert_eq!(parse_tool_calls("<tool_call name=\"x\"").unwrap().len(), 0);
}

#[test]
fn truncates_long_results_in_the_middle() {
    assert_eq!(truncate_middle("abcdef", 6), "abcdef");
    assert_eq!(truncate_middle("abcdefghij", 4), "ab\n…[已截断 6 字符]…\nij");
}

#[test]
fn formats_results_with_failure_warning() {
    let ok = ToolResult { name: "a".to_string(), ok: true, output: "1".to_string() };
    assert_eq!(format_results(&vec![ok]), "<tool_result name=\"a\" ok=\"true\">\n1\n</tool_result>");
    let results = vec![
        ToolResult { name: "a".to_string(), ok: true, output: "1".to_string() },
        ToolResult { name: "b".to_string(), ok: false, output: "no".to_string() },
    ];
    let text = format_results(&results);
    assert!(text.starts_with("[系统提示] 本轮有 1 个工具调用失败 (ok=false)。"));
    assert!(text.ends_with(
        "<tool_result name=\"a\" ok=\"true\">\n1\n</tool_result>\n<tool_result name=\"b\" ok=\"false\">\nno\n</tool_result>"
    ));
    assert_eq!(format_results(&vec![]), "");
}

#[test]
fn protocol_is_injected_once_after_system_messages() {
    let protocol = "[DeepEr Agent 工具协议] rules".to_string();
    let msgs = vec![msg("system", "persona"), msg("user", "hi")];
    let once = inject_protocol(msgs, protocol.clone());
    assert_eq!(once.len(), 3);
    assert_eq!(once[1].role, "system");
    assert_eq!(once[1].content, protocol);
    assert_eq!(once[2].content, "hi");
    let twice = inject_protocol(once, protocol.clone());
    assert_eq!(twice.len(), 3);
    let no_system = inject_protocol(vec![msg("user", "hi")], protocol.clone());
    assert_eq!(no_system[0].content, protocol);
}

#[test]
fn history_keeps_base_and_latest_two_rounds() {
    let mut msgs: Vec<LlmMessage> = (0..8).map(|i| msg("user", &i.to_string())).collect();
    trim_history(&mut msgs, 2);
    let kept: Vec<&str> = msgs.iter().map(|m| m.content.as_str()).collect();
    assert_eq!(kept, vec!["0", "1", "4", "5", "6", "7"]);
    let mut short: Vec<LlmMessage> = (0..5).map(|i| msg("user", &i.to_string())).collect();
    trim_history(&mut short, 1);
    assert_eq!(short.len(), 5);
}

#[test]
fn repeated_failures_get_a_note() {
    let sig = call_signature("search", r#"{"q":1}"#);
    assert_eq!(sig, r#"search::{"q":1}"#);
    let failed = ToolResult { name: "search".to_string(), ok: false, output: "err".to_string() };
    let noted = note_repeated_failure(failed, &vec![sig.clone()], &sig);
    assert!(noted.output.starts_with("err\n[注意: 该参数组合上一次已失败"));
    let fresh = ToolResult { name: "search".to_string(), ok: false, output: "err".to_string() };
    assert_eq!(note_repeated_failure(fresh, &vec![], &sig).output, "err");
    let ok = ToolResult { name: "search".to_string(), ok: true, output: "fine".to_string() };
    assert_eq!(note_repeated_failure(ok, &vec![sig.clone()], &sig).output, "fine");
}

#[test]
fn platform_from_adapter_setting() {
    assert!(matches!(platform_of(Some("openai-responses")), Ok(Platform::OpenAi)));
    assert!(matches!(platform_of(Some("anthropic-messages")), Ok(Platform::Anthropic)));
    assert!(matches!(platform_of(Some("google-genai")), Ok(Platform::Google)));
    assert_eq!(platform_of(Some("other")).err().as_deref(), Some("LLM 未启用"));
    assert_eq!(platform_of(None).err().as_deref(), Some("LLM 未启用"));
}

#[test]
fn user_records_skip_blank_messages() {
    let args = AgentRunArgs {
        messages: vec![
            AgentUserMessage { content: "  hello  ".to_string(), kind: None },
            AgentUserMessage { content: "   ".to_string(), kind: Some("touch".to_string()) },
            AgentUserMessage { content: "摸摸".to_string(), kind: Some("touch".to_string()) },
        ],
        request_id: None,
    };
    let records = user_records(&args);
    assert_eq!(records.len(), 2);
    assert_eq!(records[0].kind, "talk");
    assert_eq!(records[0].content, "hello");
    assert_eq!(records[0].tokens, 2);
    assert_eq!(records[1].kind, "touch");
    assert_eq!(records[1].tokens, 1);
}

#[test]
fn fixed_outcomes() {
    let empty = empty_context_outcome();
    assert!(!empty.ok);
    assert_eq!(empty.error.as_deref(), Some("上下文为空, 请先发送一条消息"));
    let tally = AgentTally { input_tokens: 5, output_tokens: 6, calls: 2 };
    let limit = round_limit_outcome(&tally);
    assert!(limit.ok);
    assert_eq!(limit.rounds, MAX_ROUNDS);
    assert_eq!(limit.calls, 2);
    assert_eq!(limit.input_tokens, Some(5));
}

#[test]
fn generation_steps() {
    let mut tally = AgentTally { input_tokens: 1, output_tokens: 1, calls: 0 };
    let step = after_generation(&mut tally, 1, LlmGenerateOutcome::err("boom".to_string())).unwrap();
    match step {
        AgentStep::Finish(o) => {
            assert!(!o.ok);
            assert_eq!(o.error.as_deref(), Some("boom"));
            assert_eq!(o.rounds, 1);
        }
        AgentStep::RunTools(_) => panic!("expected finish"),
    }
    let reply = LlmGenerateOutcome::ok("answer".to_string(), Some(10), Some(3));
    match after_generation(&mut tally, 2, reply).unwrap() {
        AgentStep::Finish(o) => {
            assert!(o.ok);
            assert_eq!(o.text.as_deref(), Some("answer"));
            assert_eq!(o.input_tokens, Some(11));
            assert_eq!(o.output_tokens, Some(4));
        }
        AgentStep::RunTools(_) => panic!("expected finish"),
    }
    let reply = LlmGenerateOutcome::ok(r#"<tool_call name="a"></tool_call><tool_call name="b"></tool_call>"#.to_string(), None, None);
    match after_generation(&mut tally, 3, reply).unwrap() {
        AgentStep::RunTools(calls) => assert_eq!(calls.len(), 2),
        AgentStep::Finish(_) => panic!("expected tools"),
    }
    assert_eq!(tally.calls, 2);
    let bad = LlmGenerateOutcome::ok(r#"<tool_call name="a" args='{x'>"#.to_string(), None, None);
    assert!(after_generation(&mut tally, 4, bad).is_err());
    assert_eq!(tally.calls, 2);
}

#[test]
fn checked_generation_refuses_overflowing_totals() {
    let mut tally = AgentTally { input_tokens: u64::MAX - 1, output_tokens: 0, calls: 0 };
    assert!(after_generation_checked(&mut tally, 1, LlmGenerateOutcome::ok("x".to_string(), Some(5), None)).is_none());
    assert_eq!(tally.input_tokens, u64::MAX - 1);
    let mut tally = AgentTally { input_tokens: 0, output_tokens: 0, calls: u32::MAX };
    let reply = LlmGenerateOutcome::ok(r#"<tool_call name="a"></tool_call>"#.to_string(), None, None);
    assert!(after_generation_checked(&mut tally, 1, reply).is_none());
    let mut tally = AgentTally { input_tokens: 0, output_tokens: 0, calls: 0 };
    let reply = LlmGenerateOutcome::ok("done".to_string(), Some(1), Some(1));
    assert!(matches!(after_generation_checked(&mut tally, 1, reply), Some(Ok(AgentStep::Finish(_)))));
}

#[test]
fn protocol_syntax_is_read_back() {
    let text = r#"<tool_call name=" time-now " args='{ "tz" : "Asia/Shanghai" }'></tool_call>"#;
    let calls = parse_tool_calls(text).unwrap();
    assert_eq!(calls.len(), 1);
    assert_eq!(calls[0].name, "time-now");
    assert_eq!(calls[0].args, r#"{"tz":"Asia/Shanghai"}"#);
}

#[test]
fn agent_run_goes_round_by_round() {
    let protocol = "[DeepEr Agent 工具协议] rules".to_string();
    let mut run = AgentRun::start(vec![msg("system", "persona"), msg("user", "hi")], protocol);
    assert_eq!(run.base_len, 3);
    let reply = r#"<tool_call name="calc" args='{"x":1}'></tool_call>"#;
    let step = run.on_generated(LlmGenerateOutcome::ok(reply.to_string(), Some(10), Some(2))).unwrap().unwrap();
    let calls = match step {
        AgentStep::RunTools(calls) => calls,
        AgentStep::Finish(_) => panic!("expected tools"),
    };
    assert_eq!(run.round, 1);
    let (results, done) = run.on_tools_done(&calls, vec![Err("bad".to_string())]);
    assert!(done.is_none());
    assert_eq!(results[0].output, "bad");
    assert_eq!(run.messages.len(), 5);
    assert_eq!(run.messages[3].role, "assistant");
    assert_eq!(run.messages[3].content, reply);
    assert_eq!(run.previous_calls, vec![r#"calc::{"x":1}"#.to_string()]);
    // The same failing call again gets the note.
    let step = run.on_generated(LlmGenerateOutcome::ok(reply.to_string(), None, None)).unwrap().unwrap();
    let calls = match step {
        AgentStep::RunTools(calls) => calls,
        AgentStep::Finish(_) => panic!("expected tools"),
    };
    let (results, _) = run.on_tools_done(&calls, vec![Err("bad".to_string())]);
    assert!(results[0].output.starts_with("bad\n[注意"));
    assert_eq!(run.messages.len(), 7);
    // A third round drops the oldest tool round.
    let step = run.on_generated(LlmGenerateOutcome::ok(reply.to_string(), None, None)).unwrap().unwrap();
    let calls = match step {
        AgentStep::RunTools(calls) => calls,
        AgentStep::Finish(_) => panic!("expected tools"),
    };
    run.on_tools_done(&calls, vec![Ok("2".to_string())]);
    assert_eq!(run.messages.len(), 7);
    assert_eq!(run.tally.calls, 3);
    let answer = run.on_generated(LlmGenerateOutcome::ok("done".to_string(), None, None)).unwrap().unwrap();
    match answer {
        AgentStep::Finish(o) => {
            assert!(o.ok);
            assert_eq!(o.rounds, 4);
            assert_eq!(o.calls, 3);
            assert_eq!(o.input_tokens, Some(10));
        }
        AgentStep::RunTools(_) => panic!("expected answer"),
    }
}

#[test]
fn agent_run_stops_at_round_limit() {
    let mut run = AgentRun::start(vec![msg("user", "hi")], "[DeepEr Agent 工具协议]".to_string());
    let reply = r#"<tool_call name="a"></tool_call>"#;
    let mut last = None;
    for _ in 0..MAX_ROUNDS {
        let step = run.on_generated(LlmGenerateOutcome::ok(reply.to_string(), None, None)).unwrap().unwrap();
        let calls = match step {
            AgentStep::RunTools(calls) => calls,
            AgentStep::Finish(_) => panic!("expected tools"),
        };
        let (_, done) = run.on_tools_done(&calls, vec![Ok("x".to_string())]);
        last = done;
    }
    let outcome = last.expect("round limit reached");
    assert!(outcome.ok);
    assert_eq!(outcome.rounds, MAX_ROUNDS);
    assert_eq!(outcome.calls, MAX_ROUNDS);
}
