use deeper::config::{
    check_migration, get_str_or, is_first_run, schema_action, schema_version, setting_string, ConfigValue, SchemaAction,
};

fn read(text: &str) -> ConfigValue {
    ConfigValue::from_storage(text).ok().unwrap()
}

#[test]
fn stored_values_are_typed() {
    assert!(matches!(read("1"), ConfigValue::Boolean(true)));
    assert!(matches!(read("FALSE"), ConfigValue::Boolean(false)));
    assert!(matches!(read("-42"), ConfigValue::Integer(-42)));
    assert!(matches!(read("[1, 2]"), ConfigValue::Json(ref j) if j == "[1,2]"));
    assert!(matches!(read("{\"a\": 1}"), ConfigValue::Json(ref j) if j == "{\"a\":1}"));
    assert!(matches!(read("\"quoted\""), ConfigValue::String(ref s) if s == "\"quoted\""));
    assert!(matches!(read("hello"), ConfigValue::String(ref s) if s == "hello"));
}

#[test]
fn values_are_stored_as_text() {
    assert_eq!(ConfigValue::Boolean(true).to_storage(), "1");
    assert_eq!(ConfigValue::Integer(-7).to_storage(), "-7");
    assert_eq!(ConfigValue::String("x".to_string()).to_storage(), "x");
    assert!(matches!(read(&ConfigValue::Integer(12).to_storage()), ConfigValue::Integer(12)));
    assert!(matches!(read(&ConfigValue::Boolean(false).to_storage()), ConfigValue::Boolean(false)));
    assert!(matches!(read(&ConfigValue::Integer(1).to_storage()), ConfigValue::Boolean(true)));
}

#[test]
fn settings_read_as_text() {
    assert_eq!(setting_string(&ConfigValue::Boolean(false)), "false");
    assert_eq!(setting_string(&ConfigValue::Integer(3)), "3");
    assert_eq!(get_str_or(Some(ConfigValue::String(String::new())), "fb"), "fb");
    assert_eq!(get_str_or(Some(ConfigValue::Json("[]".to_string())), "fb"), "fb");
    assert_eq!(get_str_or(None, "fb"), "fb");
    assert_eq!(get_str_or(Some(ConfigValue::String("v".to_string())), "fb"), "v");
}

#[test]
fn first_run_flag() {
    assert!(is_first_run(None));
    assert!(is_first_run(Some(ConfigValue::Boolean(false))));
    assert!(!is_first_run(Some(ConfigValue::Boolean(true))));
    assert!(is_first_run(Some(ConfigValue::String("False".to_string()))));
    assert!(!is_first_run(Some(ConfigValue::Json("{}".to_string()))));
}

#[test]
fn schema_versions() {
    assert_eq!(schema_version(&None), 1);
    assert_eq!(schema_version(&Some(ConfigValue::String("0".to_string()))), 0);
    assert!(matches!(schema_action(&Some(ConfigValue::Integer(1))), Ok(SchemaAction::Current)));
    assert!(matches!(schema_action(&Some(ConfigValue::Integer(0))), Ok(SchemaAction::Migrate(0))));
    assert_eq!(
        schema_action(&Some(ConfigValue::Integer(3))).err().as_deref(),
        Some("配置数据库版本 3 高于当前应用支持版本 1, 请升级应用")
    );
    assert!(check_migration(1, 2).is_ok());
    assert!(check_migration(1, 1).is_ok());
    assert_eq!(check_migration(0, 2).err().as_deref(), Some("不支持的配置数据库版本: 0"));
}

#[test]
fn values_read_back_as_stored() {
    let values = vec![
        ConfigValue::String("hello".to_string()),
        ConfigValue::String("".to_string()),
        ConfigValue::Integer(-42),
        ConfigValue::Integer(7),
        ConfigValue::Boolean(true),
        ConfigValue::Boolean(false),
        ConfigValue::Json(r#"{"a":1,"b":[true,null]}"#.to_string()),
        ConfigValue::Json("[1,2]".to_string()),
    ];
    for v in values {
        let back = ConfigValue::from_storage(&v.to_storage()).unwrap();
        assert!(same(&back, &v));
    }
    assert!(same(&ConfigValue::from_storage(&ConfigValue::Integer(1).to_storage()).unwrap(), &ConfigValue::Boolean(true)));
    assert!(same(&ConfigValue::from_storage(&ConfigValue::String("TRUE".to_string()).to_storage()).unwrap(), &ConfigValue::Boolean(true)));
}

fn same(a: &ConfigValue, b: &ConfigValue) -> bool {
    match (a, b) {
        (ConfigValue::String(x), ConfigValue::String(y)) => x == y,
        (ConfigValue::Integer(x), ConfigValue::Integer(y)) => x == y,
        (ConfigValue::Boolean(x), ConfigValue::Boolean(y)) => x == y,
        (ConfigValue::Json(x), ConfigValue::Json(y)) => x == y,
        _ => false,
    }
}
