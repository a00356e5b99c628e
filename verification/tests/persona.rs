use base64::engine::general_purpose::STANDARD;
use base64::Engine;
use deeper::config::ConfigValue;
use deeper::persona::{
    clears_selection, PersonaUpsertArgs, avatar_path_allowed, avatar_relative_path, decode_base64, extract_png_chara, import_card, is_png,
    parse_sillytavern_card, validate_name,
};

fn push_chunk(data: &mut Vec<u8>, chunk_type: &[u8; 4], chunk: &[u8]) {
    data.extend_from_slice(&(chunk.len() as u32).to_be_bytes());
    data.extend_from_slice(chunk_type);
    data.extend_from_slice(chunk);
    data.extend_from_slice(&[0, 0, 0, 0]);
}

fn make_png_with_chara(card_json: &str) -> Vec<u8> {
    let mut data = vec![0x89, b'P', b'N', b'G', 0x0D, 0x0A, 0x1A, 0x0A];
    push_chunk(&mut data, b"IHDR", &[0u8; 13]);
    let mut text = b"chara".to_vec();
    text.push(0);
    text.extend_from_slice(STANDARD.encode(card_json).as_bytes());
    push_chunk(&mut data, b"tEXt", &text);
    push_chunk(&mut data, b"IDAT", &[1, 2, 3]);
    push_chunk(&mut data, b"IEND", &[]);
    data
}

#[test]
fn extracts_chara_from_png() {
    let png = make_png_with_chara(r#"{"name":"测试角色"}"#);
    assert!(is_png(&png));
    let raw = extract_png_chara(&png).expect("应提取到 chara 段");
    let decoded = decode_base64(&raw).expect("chara 段应为 base64");
    let json: serde_json::Value = serde_json::from_slice(&decoded).expect("chara 段应为 JSON");
    assert_eq!(json["name"], "测试角色");
}

#[test]
fn rejects_non_png() {
    assert!(!is_png(b"not a png"));
    assert!(extract_png_chara(b"not a png").is_none());
}

#[test]
fn decodes_padded_and_unpadded_base64() {
    let padded = STANDARD.encode(r#"{"name":"A"}"#);
    assert_eq!(decode_base64(padded.as_bytes()), Some(r#"{"name":"A"}"#.as_bytes().to_vec()));
    let unpadded = padded.trim_end_matches('=');
    assert_eq!(decode_base64(unpadded.as_bytes()), Some(r#"{"name":"A"}"#.as_bytes().to_vec()));
}

#[test]
fn maps_sillytavern_card_fields() {
    let card = r#"{
        "name": "莉莉",
        "description": "来自深海的精灵",
        "personality": "温柔",
        "scenario": "海边小镇",
        "first_mes": "你好呀~"
    }"#;
    let _: serde_json::Value = serde_json::from_str(card).expect("测试 JSON 应合法");
    let fields = parse_sillytavern_card(card, "fallback");
    assert_eq!(fields.name, "莉莉");
    assert_eq!(fields.personality, "来自深海的精灵\n温柔\n海边小镇");
    assert_eq!(fields.first_mes, "你好呀~");
}

#[test]
fn falls_back_to_file_stem_when_name_missing() {
    let fields = parse_sillytavern_card(r#"{"description":"无名"}"#, "my-card");
    assert_eq!(fields.name, "my-card");
    assert_eq!(fields.personality, "无名");
    assert_eq!(fields.first_mes, "");
}

#[test]
fn card_fields_are_trimmed_and_blank_ones_skipped() {
    let fields = parse_sillytavern_card(r#"{"name":"  ","description":" a ","personality":"","scenario":"c"}"#, "stem");
    assert_eq!(fields.name, "stem");
    assert_eq!(fields.personality, "a\nc");
}

#[test]
fn base64_rejects_garbage_and_non_utf8() {
    assert_eq!(decode_base64(b"@@@"), None);
    assert_eq!(decode_base64(&[0xff, 0xfe]), None);
    assert_eq!(decode_base64(b"  QQ==  "), Some(b"A".to_vec()));
}

#[test]
fn png_without_chara_has_no_card() {
    let mut data = vec![0x89, b'P', b'N', b'G', 0x0D, 0x0A, 0x1A, 0x0A];
    push_chunk(&mut data, b"IHDR", &[0u8; 13]);
    push_chunk(&mut data, b"IEND", &[]);
    assert!(is_png(&data));
    assert!(extract_png_chara(&data).is_none());
    assert_eq!(import_card(&data, "x").err().as_deref(), Some("PNG 角色卡中未找到 chara 数据段"));
}

#[test]
fn import_png_card_keeps_avatar() {
    let png = make_png_with_chara(r#"{"name":"莉莉","first_mes":"hi"}"#);
    let card = import_card(&png, "stem").expect("card");
    assert_eq!(card.fields.name, "莉莉");
    assert_eq!(card.fields.first_mes, "hi");
    assert_eq!(card.avatar_png.as_deref(), Some(png.as_slice()));
}

#[test]
fn import_json_card_has_no_avatar() {
    let card = import_card(br#"{ "description": "d" }"#, "file").expect("card");
    assert_eq!(card.fields.name, "file");
    assert_eq!(card.fields.personality, "d");
    assert!(card.avatar_png.is_none());
    assert_eq!(card.card_json, r#"{"description":"d"}"#);
}

#[test]
fn import_rejects_bad_cards() {
    assert_eq!(import_card(&[0xff, 0x00], "x").err().as_deref(), Some("角色卡不是 UTF-8 文本"));
    assert!(import_card(b"{oops", "x").err().unwrap().starts_with("角色卡 JSON 解析失败: "));
    assert_eq!(import_card(br#"{"name":"a\u0001b"}"#, "x").err().as_deref(), Some("人设名称不能包含控制字符"));
    let bad_b64 = {
        let mut data = vec![0x89, b'P', b'N', b'G', 0x0D, 0x0A, 0x1A, 0x0A];
        let mut text = b"chara".to_vec();
        text.push(0);
        text.extend_from_slice(b"@@@");
        push_chunk(&mut data, b"tEXt", &text);
        data
    };
    assert_eq!(import_card(&bad_b64, "x").err().as_deref(), Some("角色卡 chara 数据解码失败"));
}

#[test]
fn persona_names_are_checked() {
    assert!(validate_name("莉莉").is_ok());
    assert_eq!(validate_name("   ").err().as_deref(), Some("人设名称不能为空"));
    assert_eq!(validate_name("a\nb").err().as_deref(), Some("人设名称不能包含控制字符"));
}

#[test]
fn avatar_paths() {
    assert_eq!(avatar_relative_path(42), "personas/avatars/42.png");
    assert_eq!(avatar_relative_path(-3), "personas/avatars/-3.png");
    assert!(avatar_path_allowed("personas/avatars/1.png"));
    assert!(avatar_path_allowed("\\personas\\avatars\\1.png"));
    assert!(avatar_path_allowed("/personas//avatars/1.png"));
    assert!(!avatar_path_allowed("personas/avatars"));
    assert!(!avatar_path_allowed("personas/other/1.png"));
    assert!(!avatar_path_allowed("personas/avatars/a/b.png"));
}

#[test]
fn saved_avatars_can_be_removed() {
    for id in [0i64, 7, -12, i64::MAX, i64::MIN] {
        assert!(avatar_path_allowed(&avatar_relative_path(id)));
    }
}

#[test]
fn persona_rows_and_selection() {
    let args = PersonaUpsertArgs { name: "  莉莉 ".to_string(), personality: " p ".to_string(), first_mes: "hi".to_string() };
    let row = args.normalized().ok().unwrap();
    assert_eq!(row.name, "莉莉");
    assert_eq!(row.personality, " p ");
    let bad = PersonaUpsertArgs { name: " ".to_string(), personality: String::new(), first_mes: String::new() };
    assert_eq!(bad.normalized().err().as_deref(), Some("人设名称不能为空"));
    assert!(clears_selection(&Some(ConfigValue::Integer(3)), 3));
    assert!(!clears_selection(&Some(ConfigValue::Integer(4)), 3));
    assert!(!clears_selection(&Some(ConfigValue::String("3".to_string())), 3));
    assert!(!clears_selection(&None, 3));
}
