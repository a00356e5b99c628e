use deeper::stream::{StreamState, StreamVerdict};

#[test]
fn stream_gathers_text_across_chunks() {
    let mut st = StreamState::new();
    let a = st.feed(b"data: {\"choices\":[{\"delta\":{\"content\":\"He\"}}]}\n\ndata: {\"choices\":[{\"del");
    assert_eq!(a.deltas, vec!["He".to_string()]);
    assert!(matches!(a.verdict, StreamVerdict::Going));
    let b = st.feed(b"ta\":{\"content\":\"llo\"},\"finish_reason\":\"stop\"}]}\n");
    assert_eq!(b.deltas, vec!["llo".to_string()]);
    let c = st.feed(b"data: {\"choices\":[],\"usage\":{\"prompt_tokens\":4,\"completion_tokens\":2}}\ndata: [DONE]\n");
    assert!(matches!(c.verdict, StreamVerdict::Done));
    let (text, input, output) = st.finish().unwrap();
    assert_eq!(text, "Hello");
    assert_eq!(input, Some(4));
    assert_eq!(output, Some(2));
}

#[test]
fn stream_failure_is_reported() {
    let mut st = StreamState::new();
    let out = st.feed(b": keep-alive\ndata: {\"error\":{\"message\":\"rate limited\"}}\n");
    match out.verdict {
        StreamVerdict::Failed(e) => assert_eq!(e, "rate limited"),
        _ => panic!("expected failure"),
    }
}

#[test]
fn stream_without_completion_is_an_error() {
    let mut st = StreamState::new();
    st.feed(b"data: {\"choices\":[{\"delta\":{\"content\":\"x\"}}]}\n");
    st.feed(b"data: not json\n");
    assert_eq!(st.finish().err().as_deref(), Some("流在完成事件前意外结束"));
}

#[test]
fn unfinished_line_waits_for_next_chunk() {
    let mut st = StreamState::new();
    let out = st.feed(b"data: [DO");
    assert!(out.deltas.is_empty());
    assert!(matches!(out.verdict, StreamVerdict::Going));
    assert_eq!(st.buffer, b"data: [DO".to_vec());
    assert!(matches!(st.feed(b"NE]\n").verdict, StreamVerdict::Done));
}

#[test]
fn split_reading_matches_whole_reading() {
    let bytes: &[u8] = b"data: {\"choices\":[{\"delta\":{\"content\":\"a\"}}]}\ndata: {\"choices\":[{\"delta\":{\"content\":\"b\"},\"finish_reason\":\"stop\"}]}\n";
    let mut whole = StreamState::new();
    let all = whole.feed(bytes);
    for cut in 0..bytes.len() {
        let mut parts = StreamState::new();
        let first = parts.feed(&bytes[..cut]);
        let second = parts.feed(&bytes[cut..]);
        let mut deltas = first.deltas.clone();
        deltas.extend(second.deltas.clone());
        assert_eq!(deltas, all.deltas);
        assert_eq!(parts.full, whole.full);
        assert_eq!(parts.saw_completion, whole.saw_completion);
    }
}
