use deeper::tts::is_stale_cache_file;
use deeper::tts::{
    audio_result, build_tts_url, extract_error_message, fail_outcome, find_voice, http_error_text,
    is_audio_extension, is_placeholder_message, keep_named_emotions, sanitize_extension, synthesized, to_number,
    Emotion,
};

fn emotion(name: &str, audio: &str) -> Emotion {
    Emotion {
        name: name.to_string(),
        audio_path: audio.to_string(),
        prompt_text: String::new(),
        prompt_lang: "zh".to_string(),
    }
}

#[test]
fn tts_extract_error_message_prefers_detail() {
    let body = r#"{"detail":"ref_audio_path is required"}"#;
    assert_eq!(extract_error_message(body), "ref_audio_path is required");
}

#[test]
fn tts_extract_error_message_falls_back_to_exception() {
    let body = r#"{"message":"tts failed","Exception":"参考音频在3~10秒范围外，请更换！"}"#;
    assert_eq!(extract_error_message(body), "参考音频在3~10秒范围外，请更换！");
}

#[test]
fn gptsovits_extract_error_message_prefers_detail() {
    let body = r#"{"detail":"ref_audio_path is required"}"#;
    assert_eq!(extract_error_message(body), "ref_audio_path is required");
}

#[test]
fn gptsovits_extract_error_message_falls_back_to_exception() {
    let body = r#"{"message":"tts failed","Exception":"参考音频在3~10秒范围内, 请更换! "}"#;
    assert_eq!(extract_error_message(body), "参考音频在3~10秒范围内, 请更换! ");
}

#[test]
fn error_message_uses_meaningful_message_then_raw_body() {
    assert_eq!(extract_error_message(r#"{"message":"server busy"}"#), "server busy");
    assert_eq!(extract_error_message(r#"{"message":"合成失败"}"#), r#"{"message":"合成失败"}"#);
    assert_eq!(extract_error_message("plain text"), "plain text");
    let long = "错".repeat(300);
    assert_eq!(extract_error_message(&long).chars().count(), 240);
}

#[test]
fn placeholder_messages() {
    assert!(is_placeholder_message(" TTS Failed ", "message"));
    assert!(is_placeholder_message("", "message"));
    assert!(!is_placeholder_message("tts failed", "detail"));
    assert!(!is_placeholder_message("disk full", "message"));
}

#[test]
fn extensions_are_sanitized() {
    assert_eq!(sanitize_extension(" MP3 "), "mp3");
    assert_eq!(sanitize_extension(""), "wav");
    assert_eq!(sanitize_extension("../x"), "wav");
    assert_eq!(sanitize_extension("abcdefghi"), "wav");
    assert_eq!(sanitize_extension("abcdefgh"), "abcdefgh");
}

#[test]
fn audio_extensions() {
    assert!(is_audio_extension(Some("WAV")));
    assert!(is_audio_extension(Some("opus")));
    assert!(!is_audio_extension(Some("txt")));
    assert!(!is_audio_extension(None));
}

#[test]
fn numbers_with_fallback() {
    assert_eq!(to_number(Some(" 42 ".to_string()), 7), 42);
    assert_eq!(to_number(Some("-3".to_string()), 7), -3);
    assert_eq!(to_number(Some("x".to_string()), 7), 7);
    assert_eq!(to_number(None, 7), 7);
}

#[test]
fn tts_url_strips_trailing_slashes() {
    assert_eq!(build_tts_url("http://127.0.0.1:9880//"), "http://127.0.0.1:9880/tts");
}

#[test]
fn emotions_without_names_are_dropped() {
    let kept = keep_named_emotions(vec![emotion("", "a.wav"), emotion("happy", "b.wav"), emotion("  ", "c.wav")]);
    assert_eq!(kept.len(), 1);
    assert_eq!(kept[0].name, "happy");
    assert_eq!(kept[0].audio_path, "b.wav");
}

#[test]
fn voices_are_found_by_name_or_default_to_first() {
    let list = vec![emotion("calm", "a.wav"), emotion("happy", "b.wav")];
    assert_eq!(find_voice(&list, &Some(" happy ".to_string())), Some(1));
    assert_eq!(find_voice(&list, &Some("angry".to_string())), None);
    assert_eq!(find_voice(&list, &None), Some(0));
    assert_eq!(find_voice(&list, &Some("  ".to_string())), Some(0));
    assert_eq!(find_voice(&vec![], &None), None);
}

#[test]
fn outcomes_and_cache_names() {
    let f = fail_outcome("http_error", "bad".to_string());
    assert!(!f.ok);
    assert_eq!(f.error_code.as_deref(), Some("http_error"));
    let a = audio_result(1700, "MP3", 9);
    assert_eq!(a.file_name, "tts_1700.mp3");
    assert_eq!(a.asset_path, "tts/tts_1700.mp3");
    let s = synthesized(5, 10);
    assert!(s.ok);
    assert_eq!(s.asset_path.as_deref(), Some("tts/tts_5.wav"));
    assert_eq!(s.size, Some(10));
    assert_eq!(http_error_text("500", r#"{"detail":"oops"}"#), "TTS 接口返回 500: oops");
}

#[test]
fn cache_files_expire_after_two_hours() {
    assert!(is_stale_cache_file(10_000, 2_799));
    assert!(!is_stale_cache_file(10_000, 2_800));
    assert!(!is_stale_cache_file(i64::MIN + 5, i64::MIN));
}

/// Reads a stored list of voices as the settings page stores it (JSON with
/// camelCase keys; `name` required, the rest defaulting to empty), then keeps
/// the named ones.
fn parse_emotions(raw: String) -> Vec<Emotion> {
    if raw.trim().is_empty() {
        return Vec::new();
    }
    let Ok(serde_json::Value::Array(items)) = serde_json::from_str::<serde_json::Value>(&raw) else {
        return Vec::new();
    };
    let text = |v: &serde_json::Value, key: &str| v.get(key).and_then(|x| x.as_str()).map(|s| s.to_string());
    let mut list = Vec::new();
    for item in &items {
        let Some(name) = text(item, "name") else { return Vec::new() };
        list.push(Emotion {
            name,
            audio_path: text(item, "audioPath").unwrap_or_default(),
            prompt_text: text(item, "promptText").unwrap_or_default(),
            prompt_lang: text(item, "promptLang").unwrap_or_default(),
        });
    }
    keep_named_emotions(list)
}

#[test]
fn parse_emotions_handles_empty() {
    assert!(parse_emotions(String::new()).is_empty());
    assert!(parse_emotions(r#"not-json"#.to_string()).is_empty());
}

#[test]
fn parse_emotions_filters_empty_name() {
    let raw = r#"[{"name":"","audioPath":"a.wav"},{"name":"happy","audioPath":"b.wav"}]"#;
    let list = parse_emotions(raw.to_string());
    assert_eq!(list.len(), 1);
    assert_eq!(list[0].name, "happy");
    assert_eq!(list[0].audio_path, "b.wav");
}
