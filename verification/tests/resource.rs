use deeper::resource::{
    check_inside, choose_entry, cover_extension, free_model_name, zip_entry_action, ZipEntryAction, entry_kind, entry_naming_of, find_entry_file, find_entry_in_dir, is_symlink_mode,
    message_with, parse_resource_type, sanitize_zip_path, stale_index_entries, DownloadError, EntryKind, ResourceType,
    WalkedFile,
};

fn walked(name: &str, path: &str) -> WalkedFile {
    WalkedFile { file_name: name.to_string(), relative_path: path.to_string() }
}

fn s(v: &[&str]) -> Vec<String> {
    v.iter().map(|x| x.to_string()).collect()
}

#[test]
fn resource_types() {
    assert_eq!(ResourceType::Live2D.as_str(), "live2d");
    assert_eq!(ResourceType::Live2D.dir_name(), "live2d");
    assert!(ResourceType::Live2D.is_live2d());
    assert_eq!(ResourceType::from_str(" Live2D "), Some(ResourceType::Live2D));
    assert_eq!(ResourceType::from_str(ResourceType::Live2D.as_str()), Some(ResourceType::Live2D));
    assert_eq!(parse_resource_type("spine").err().as_deref(), Some("未知的资源类型: spine"));
    assert_eq!(message_with("a: ", "b"), "a: b");
}

#[test]
fn download_error_messages() {
    assert_eq!(DownloadError::Network("x".to_string()).message(), "网络错误: x");
    assert_eq!(DownloadError::InvalidArchive("y".to_string()).message(), "资源包无效: y");
    assert_eq!(DownloadError::InvalidResource("z".to_string()).message(), "资源参数错误: z");
}

#[test]
fn zip_paths_are_cleaned() {
    assert_eq!(sanitize_zip_path("a\\b/./c").ok().as_deref(), Some("a/b/c"));
    assert_eq!(sanitize_zip_path("a//b/").ok().as_deref(), Some("a/b"));
    assert_eq!(sanitize_zip_path("").ok().as_deref(), Some(""));
}

#[test]
fn unsafe_zip_paths_are_refused() {
    let msg = |p: &str| match sanitize_zip_path(p) {
        Err(e) => e.message(),
        Ok(_) => panic!("expected refusal"),
    };
    assert_eq!(msg("/etc/passwd"), "资源包无效: ZIP 包包含绝对路径: /etc/passwd");
    assert_eq!(msg("\\x"), "资源包无效: ZIP 包包含绝对路径: \\x");
    assert_eq!(msg("C:/x"), "资源包无效: ZIP 包包含 Windows 绝对路径: C:/x");
    assert_eq!(msg("a/../b"), "资源包无效: ZIP 条目包含路径穿越: a/../b");
    assert_eq!(msg("a/b\u{1}"), "资源包无效: ZIP 条目包含非法字符: a/b\u{1}");
}

#[test]
fn entry_kinds() {
    assert_eq!(entry_kind("Haru.Model3.JSON"), Some(EntryKind::Cubism3));
    assert_eq!(entry_kind("shizuku.model.json"), Some(EntryKind::Cubism2));
    assert_eq!(entry_kind("model3.json"), Some(EntryKind::Bare));
    assert_eq!(entry_kind("physics3.json"), None);
    assert_eq!(entry_kind("model3.txt"), None);
}

#[test]
fn entry_file_is_chosen_by_kind() {
    let files = vec![
        walked("model.json", "model.json"),
        walked("a.model.json", "sub\\a.model.json"),
        walked("b.model3.json", "sub\\b.model3.json"),
        walked("c.model3.json", "c.model3.json"),
    ];
    assert_eq!(find_entry_file(&files).as_deref(), Some("sub/b.model3.json"));
    let two = vec![walked("model.json", "model.json"), walked("a.model.json", "sub\\a.model.json")];
    assert_eq!(find_entry_in_dir(&two).as_deref(), Some("sub/a.model.json"));
    assert_eq!(find_entry_file(&vec![walked("x.png", "x.png")]), None);
    assert_eq!(choose_entry(&s(&[]), &s(&[]), &s(&["a\\model.json"])).as_deref(), Some("a/model.json"));
}

#[test]
fn entry_naming() {
    assert_eq!(
        entry_naming_of("Haru.model3.json", None).unwrap(),
        ("model3.json".to_string(), "Haru".to_string())
    );
    assert_eq!(
        entry_naming_of("MODEL.json", Some("shizuku".to_string())).unwrap(),
        ("model.json".to_string(), "shizuku".to_string())
    );
    assert_eq!(entry_naming_of("model3.json", None).unwrap().1, "live2d_model");
    assert_eq!(entry_naming_of("x.json", None).err().as_deref(), Some("无法识别的 Live2D 入口文件"));
}

#[test]
fn covers_and_links() {
    assert_eq!(cover_extension(Some("PNG")).ok().as_deref(), Some("png"));
    assert_eq!(cover_extension(Some("svg")).err().as_deref(), Some("仅支持 png/jpg/gif/webp/bmp 图片"));
    assert!(cover_extension(None).is_err());
    assert!(is_symlink_mode(Some(0o120777)));
    assert!(!is_symlink_mode(Some(0o100644)));
    assert!(!is_symlink_mode(None));
}

#[test]
fn stale_entries() {
    assert_eq!(stale_index_entries(&s(&["a", "b", "c"]), &s(&["c", "a"])), s(&["b"]));
    assert!(stale_index_entries(&s(&["a"]), &s(&["a"])).is_empty());
}

#[test]
fn imported_model_takes_a_free_name() {
    let none: Vec<String> = vec![];
    assert_eq!(free_model_name("hiyori", &none), "hiyori");
    let taken = vec!["hiyori".to_string(), "other".to_string()];
    assert_eq!(free_model_name("hiyori", &taken), "hiyori-2");
    let taken = vec!["hiyori-2".to_string(), "hiyori".to_string(), "hiyori-3".to_string()];
    assert_eq!(free_model_name("hiyori", &taken), "hiyori-4");
    let gap = vec!["hiyori".to_string(), "hiyori-3".to_string()];
    assert_eq!(free_model_name("hiyori", &gap), "hiyori-2");
    let mut many: Vec<String> = vec!["m".to_string()];
    for k in 2..=11 {
        many.push(format!("m-{k}"));
    }
    assert_eq!(free_model_name("m", &many), "m-12");
}

#[test]
fn archive_entry_decisions() {
    assert!(matches!(zip_entry_action("", false, None), Ok(ZipEntryAction::Skip)));
    assert!(matches!(zip_entry_action("./", true, None), Ok(ZipEntryAction::Skip)));
    assert!(matches!(zip_entry_action("a\\b/", true, None), Ok(ZipEntryAction::MakeDir(ref d)) if d == "a/b"));
    assert!(matches!(zip_entry_action("m/model3.json", false, Some(0o100644)), Ok(ZipEntryAction::WriteFile(ref f)) if f == "m/model3.json"));
    assert!(matches!(zip_entry_action("m/x.json", false, None), Ok(ZipEntryAction::WriteFile(ref f)) if f == "m/x.json"));
    match zip_entry_action("m/link", false, Some(0o120777)) {
        Err(DownloadError::InvalidArchive(m)) => assert_eq!(m, "ZIP 包包含不允许的符号链接: m/link"),
        _ => panic!("a link must be refused"),
    }
    assert!(matches!(zip_entry_action("m/link", true, Some(0o120777)), Ok(ZipEntryAction::MakeDir(_))));
    assert!(matches!(zip_entry_action("../evil", false, None), Err(DownloadError::InvalidArchive(_))));
    assert!(matches!(zip_entry_action("/etc/passwd", false, None), Err(DownloadError::InvalidArchive(_))));
}

#[test]
fn entries_stay_inside_the_target() {
    let v = |parts: &[&str]| parts.iter().map(|p| p.to_string()).collect::<Vec<String>>();
    assert!(check_inside(&v(&["/", "data", "m", "sub"]), &v(&["/", "data", "m"]), "sub/x").is_ok());
    assert!(check_inside(&v(&["/", "data", "m"]), &v(&["/", "data", "m"]), "x").is_ok());
    match check_inside(&v(&["/", "data", "other"]), &v(&["/", "data", "m"]), "x") {
        Err(DownloadError::InvalidArchive(m)) => assert_eq!(m, "ZIP 条目超出目标目录: x"),
        _ => panic!("outside the target"),
    }
    assert!(check_inside(&v(&["/", "data"]), &v(&["/", "data", "m"]), "x").is_err());
    assert!(check_inside(&v(&["/", "data", "mm"]), &v(&["/", "data", "m"]), "x").is_err());
}
