//! Configuration values: how they are stored as text and read back, and the
//! decisions the application takes from them.
use vstd::prelude::*;

use crate::json::{json_leaf, json_normalize, json_pointer, json_reformat, JsonLeaf, JsonLeafView};
use crate::text::{
    all_digits, chars_eq, decimal, lemma_decimal, digit_char, digits_value, i64_decimal, int_text, is_ascii_digit,
    lower, parse_i64, parse_i64_spec, push_all, str_chars, string_from_chars, to_lower, unsigned_text,
};

verus! {

/// A configuration value.
pub enum ConfigValue {
    String(String),
    Integer(i64),
    Boolean(bool),
    /// A JSON object or array, as compact JSON text.
    Json(String),
}

/// Model of [`ConfigValue`].
pub enum ConfigValueView {
    String(Seq<char>),
    Integer(i64),
    Boolean(bool),
    Json(Seq<char>),
}

impl View for ConfigValue {
    type V = ConfigValueView;

    open spec fn view(&self) -> ConfigValueView {
        match self {
            ConfigValue::String(s) => ConfigValueView::String(s@),
            ConfigValue::Integer(i) => ConfigValueView::Integer(*i),
            ConfigValue::Boolean(b) => ConfigValueView::Boolean(*b),
            ConfigValue::Json(j) => ConfigValueView::Json(j@),
        }
    }
}

/// The text a value is stored as.
pub open spec fn storage_text(v: ConfigValueView) -> Seq<char> {
    match v {
        ConfigValueView::String(s) => s,
        ConfigValueView::Integer(i) => int_text(i as int),
        ConfigValueView::Boolean(b) => if b { "1"@ } else { "0"@ },
        ConfigValueView::Json(j) => j,
    }
}

/// The value a stored text is read as: `1`/`true` and `0`/`false` (any ASCII
/// case) are booleans, then 64-bit integers, then JSON objects and arrays
/// (kept compact); anything else is a string.
pub open spec fn stored_value(text: Seq<char>) -> ConfigValueView {
    if text == "1"@ || lower(text) == "true"@ {
        ConfigValueView::Boolean(true)
    } else if text == "0"@ || lower(text) == "false"@ {
        ConfigValueView::Boolean(false)
    } else if parse_i64_spec(text) is Some {
        ConfigValueView::Integer(parse_i64_spec(text)->0)
    } else if (json_leaf(text, Seq::empty()) matches Some(l) && (l is Object || l is Array))
        && json_reformat(text) is Ok {
        ConfigValueView::Json(json_reformat(text)->Ok_0)
    } else {
        ConfigValueView::String(text)
    }
}

impl ConfigValue {
    /// The text stored in the database for this value.
    pub fn to_storage(&self) -> (r: String)
        ensures
            r@ == storage_text(self@),
    {
        match self {
            ConfigValue::String(v) => v.clone(),
            ConfigValue::Integer(v) => string_from_chars(i64_decimal(*v).as_slice()),
            ConfigValue::Boolean(v) => if *v { "1".to_string() } else { "0".to_string() },
            ConfigValue::Json(v) => v.clone(),
        }
    }

    /// Reads a stored text back as a value (this never fails).
    pub fn from_storage(value: &str) -> (r: Result<ConfigValue, String>)
        ensures
            r matches Ok(v) && v@ == stored_value(value@),
    {
        let t = str_chars(value);
        let l = to_lower(t.as_slice());
        if chars_eq(t.as_slice(), str_chars("1").as_slice()) || chars_eq(l.as_slice(), str_chars("true").as_slice()) {
            return Ok(ConfigValue::Boolean(true));
        }
        if chars_eq(t.as_slice(), str_chars("0").as_slice()) || chars_eq(l.as_slice(), str_chars("false").as_slice()) {
            return Ok(ConfigValue::Boolean(false));
        }
        if let Some(n) = parse_i64(t.as_slice()) {
            return Ok(ConfigValue::Integer(n));
        }
        let root = String::new();
        let container = match json_pointer(value, root.as_str()) {
            Some(JsonLeaf::Object) => true,
            Some(JsonLeaf::Array(_)) => true,
            _ => false,
        };
        if container {
            if let Ok(j) = json_normalize(value) {
                return Ok(ConfigValue::Json(j));
            }
        }
        Ok(ConfigValue::String(value.to_string()))
    }
}

/// A value's text as the provider settings read it: strings as they are,
/// numbers in decimal, booleans as `true`/`false`, JSON as its text.
pub open spec fn setting_text(v: ConfigValueView) -> Seq<char> {
    match v {
        ConfigValueView::String(s) => s,
        ConfigValueView::Integer(i) => int_text(i as int),
        ConfigValueView::Boolean(b) => if b { "true"@ } else { "false"@ },
        ConfigValueView::Json(j) => j,
    }
}

/// Reads a stored value as a setting's text.
pub fn setting_string(v: &ConfigValue) -> (r: String)
    ensures
        r@ == setting_text(v@),
{
    match v {
        ConfigValue::String(s) => s.clone(),
        ConfigValue::Integer(i) => string_from_chars(i64_decimal(*i).as_slice()),
        ConfigValue::Boolean(b) => if *b { "true".to_string() } else { "false".to_string() },
        ConfigValue::Json(j) => j.clone(),
    }
}

/// A string setting with a fallback: non-empty strings, numbers and booleans
/// are read; anything else (missing, empty, JSON) gives the fallback.
pub open spec fn str_or(v: Option<ConfigValueView>, fallback: Seq<char>) -> Seq<char> {
    match v {
        Some(ConfigValueView::String(s)) => if s.len() > 0 { s } else { fallback },
        Some(ConfigValueView::Integer(i)) => int_text(i as int),
        Some(ConfigValueView::Boolean(b)) => if b { "true"@ } else { "false"@ },
        _ => fallback,
    }
}

pub open spec fn opt_config_view(v: Option<ConfigValue>) -> Option<ConfigValueView> {
    match v {
        Some(x) => Some(x@),
        None => None,
    }
}

/// Reads a string setting, with a fallback.
pub fn get_str_or(v: Option<ConfigValue>, fallback: &str) -> (r: String)
    ensures
        r@ == str_or(opt_config_view(v), fallback@),
{
    match v {
        Some(ConfigValue::String(s)) => if str_chars(s.as_str()).len() > 0 { s } else { fallback.to_string() },
        Some(ConfigValue::Integer(i)) => string_from_chars(i64_decimal(i).as_slice()),
        Some(ConfigValue::Boolean(b)) => if b { "true".to_string() } else { "false".to_string() },
        _ => fallback.to_string(),
    }
}

/// Whether the application still has to run its first-run setup, from the
/// stored completion flag.
pub open spec fn first_run(v: Option<ConfigValueView>) -> bool {
    match v {
        None => true,
        Some(ConfigValueView::Boolean(b)) => !b,
        Some(ConfigValueView::Integer(i)) => i == 0,
        Some(ConfigValueView::String(s)) => s == "0"@ || lower(s) == "false"@,
        Some(ConfigValueView::Json(_)) => false,
    }
}

/// Decides whether this is the first run from the stored completion flag.
pub fn is_first_run(v: Option<ConfigValue>) -> (b: bool)
    ensures
        b == first_run(opt_config_view(v)),
{
    match v {
        None => true,
        Some(ConfigValue::Boolean(b)) => !b,
        Some(ConfigValue::Integer(i)) => i == 0,
        Some(ConfigValue::String(s)) => {
            let t = str_chars(s.as_str());
            chars_eq(t.as_slice(), str_chars("0").as_slice())
                || chars_eq(to_lower(t.as_slice()).as_slice(), str_chars("false").as_slice())
        },
        Some(ConfigValue::Json(_)) => false,
    }
}

/// The configuration schema version this application writes.
pub const CONFIG_SCHEMA_VERSION: i64 = 1;

/// The stored schema version: an integer, or a string holding one; anything
/// else counts as the current version.
pub open spec fn stored_schema(v: Option<ConfigValueView>) -> i64 {
    match v {
        Some(ConfigValueView::Integer(i)) => i,
        Some(ConfigValueView::String(s)) => match parse_i64_spec(s) {
            Some(i) => i,
            None => 1,
        },
        _ => 1,
    }
}

/// Reads the stored schema version.
pub fn schema_version(v: &Option<ConfigValue>) -> (r: i64)
    ensures
        r == stored_schema(opt_config_view(*v)),
{
    match v {
        Some(ConfigValue::Integer(i)) => *i,
        Some(ConfigValue::String(s)) => match parse_i64(str_chars(s.as_str()).as_slice()) {
            Some(i) => i,
            None => CONFIG_SCHEMA_VERSION,
        },
        _ => CONFIG_SCHEMA_VERSION,
    }
}

/// What to do with a database of a given schema version.
pub enum SchemaAction {
    /// The versions match.
    Current,
    /// Migrate from this older version.
    Migrate(i64),
}

/// A newer database is refused; an older one is migrated.
pub open spec fn schema_error(current: i64) -> Seq<char> {
    "配置数据库版本 "@ + int_text(current as int) + " 高于当前应用支持版本 "@ + int_text(1) + ", 请升级应用"@
}

/// Decides how to treat the stored schema version.
pub fn schema_action(v: &Option<ConfigValue>) -> (r: Result<SchemaAction, String>)
    ensures
        match r {
            Ok(SchemaAction::Current) => stored_schema(opt_config_view(*v)) == 1,
            Ok(SchemaAction::Migrate(from)) => from == stored_schema(opt_config_view(*v)) && from < 1,
            Err(e) => stored_schema(opt_config_view(*v)) > 1 && e@ == schema_error(stored_schema(opt_config_view(*v))),
        },
{
    let current = schema_version(v);
    if current > CONFIG_SCHEMA_VERSION {
        let mut m = str_chars("配置数据库版本 ");
        push_all(&mut m, i64_decimal(current).as_slice());
        push_all(&mut m, str_chars(" 高于当前应用支持版本 ").as_slice());
        push_all(&mut m, i64_decimal(CONFIG_SCHEMA_VERSION).as_slice());
        push_all(&mut m, str_chars(", 请升级应用").as_slice());
        return Err(string_from_chars(m.as_slice()));
    }
    if current < CONFIG_SCHEMA_VERSION {
        return Ok(SchemaAction::Migrate(current));
    }
    Ok(SchemaAction::Current)
}

/// Migration steps exist from version 1 only; the first version in
/// `from..to` without one is refused.
pub open spec fn migration_gap(from: int, to: int) -> Option<int>
    decreases to - from,
{
    if from >= to {
        None
    } else if from != 1 {
        Some(from)
    } else {
        migration_gap(from + 1, to)
    }
}

/// Checks that every step of a migration from `from` to `to` is supported.
pub fn check_migration(from: i64, to: i64) -> (r: Result<(), String>)
    ensures
        match r {
            Ok(()) => migration_gap(from as int, to as int) is None,
            Err(e) => migration_gap(from as int, to as int) matches Some(v) && e@ == "不支持的配置数据库版本: "@ + int_text(v),
        },
{
    let mut version = from;
    while version < to
        invariant
            from <= version,
            version <= to || from > to,
            migration_gap(from as int, to as int) == migration_gap(version as int, to as int),
        decreases to - version,
    {
        if version != 1 {
            let mut m = str_chars("不支持的配置数据库版本: ");
            push_all(&mut m, i64_decimal(version).as_slice());
            return Err(string_from_chars(m.as_slice()));
        }
        version = version + 1;
    }
    Ok(())
}

/// The first-run configuration snapshot shown to the front end.
pub struct InitConfig {
    pub config_schema_version: i64,
    pub app_version: String,
    pub installed_at: String,
    pub initialized_at: Option<String>,
    pub language: String,
}

} // verus!

verus! {

/// Whether a text reads back as a value of another kind than a string: a
/// boolean, an integer, or a JSON object or array.
pub open spec fn reads_as_other(text: Seq<char>) -> bool {
    ||| text == "1"@ || lower(text) == "true"@
    ||| text == "0"@ || lower(text) == "false"@
    ||| parse_i64_spec(text) is Some
    ||| (json_leaf(text, Seq::empty()) matches Some(l) && (l is Object || l is Array)) && json_reformat(text) is Ok
}

/// JSON text in the form a `Json` value holds it: an object or array written
/// compactly, as `serde_json` writes it.
pub open spec fn compact_json(text: Seq<char>) -> bool {
    &&& text.len() > 0 && (text[0] == '{' || text[0] == '[')
    &&& json_leaf(text, Seq::empty()) matches Some(l) && (l is Object || l is Array)
    &&& json_reformat(text) == Ok::<Seq<char>, Seq<char>>(text)
}

/// The values that read back from their stored text as themselves: every
/// boolean; every integer but 0 and 1 (which read back as booleans); every
/// string that does not read as another kind of value; JSON in compact form.
pub open spec fn stored_faithfully(v: ConfigValueView) -> bool {
    match v {
        ConfigValueView::Boolean(_) => true,
        ConfigValueView::Integer(i) => i != 0 && i != 1,
        ConfigValueView::String(s) => !reads_as_other(s),
        ConfigValueView::Json(j) => compact_json(j),
    }
}

/// A value stored as text reads back as the same value, for the values that
/// are stored faithfully.
pub proof fn lemma_config_round_trip(v: ConfigValueView)
    requires
        stored_faithfully(v),
    ensures
        stored_value(storage_text(v)) == v,
{
    reveal_strlit("1");
    reveal_strlit("0");
    reveal_strlit("true");
    reveal_strlit("false");
    match v {
        ConfigValueView::Boolean(b) => {
            assert(lower("0"@).len() == 1);
            assert("0"@ != "1"@);
        },
        ConfigValueView::Integer(i) => {
            let t = int_text(i as int);
            if i < 0 {
                let m = (-(i as int)) as nat;
                lemma_decimal(m);
                let d = decimal(m);
                assert(t == seq!['-'] + d);
                assert(t.drop_first() =~= d);
                assert(t[0] == '-');
                assert(lower(t)[0] == '-');
                assert(lower(t) != "true"@);
                assert(lower(t) != "false"@);
                assert(t != "1"@ && t != "0"@);
                assert(parse_i64_spec(t) == Some(i));
            } else {
                let m = i as nat;
                lemma_decimal(m);
                assert(t == decimal(m));
                assert(is_ascii_digit(t[0]));
                assert(lower(t)[0] == t[0]);
                assert(lower(t) != "true"@);
                assert(lower(t) != "false"@);
                if t == "1"@ || t == "0"@ {
                    assert(m < 10);
                    assert(t == seq![digit_char(m)]);
                }
                assert(t != "1"@ && t != "0"@);
                assert(t[0] != '-');
                assert(unsigned_text(t) == Some(m));
                assert(parse_i64_spec(t) == Some(i));
            }
        },
        ConfigValueView::String(_) => {},
        ConfigValueView::Json(j) => {
            assert(j != "1"@ && j != "0"@);
            assert(lower(j)[0] == j[0]);
            assert(lower(j) != "true"@ && lower(j) != "false"@);
            assert(!is_ascii_digit(j[0]) && j[0] != '-' && j[0] != '+');
        },
    }
}

} // verus!
