use roextract::config::{
    alias_can_be_set, alias_is_readable, config_assignable,
    copy_json, detect_config_file, get_asset_alias, get_config, get_config_bool, get_config_string, get_config_u64,
    get_system_config_bool, get_system_config_string, config_file_contents, config_from_file, remove_config_value, set_asset_alias,
    set_config_value, JsonNumber, JsonValue,
};

fn s(x: &str) -> JsonValue {
    JsonValue::String(x.to_string())
}

fn object(members: Vec<(&str, JsonValue)>) -> JsonValue {
    JsonValue::Object(members.into_iter().map(|(k, v)| (k.to_string(), v)).collect())
}

fn empty() -> JsonValue {
    JsonValue::Object(Vec::new())
}

#[test]
fn string_setting_loses_its_quotes() {
    let config = object(vec![("theme", s("\"dark\"")), ("n", JsonValue::Number(JsonNumber::PosInt(3)))]);
    assert_eq!(get_config_string(&config, "theme"), Some("dark".to_string()));
    assert_eq!(get_config_string(&config, "n"), None);
    assert_eq!(get_config_string(&config, "missing"), None);
}

#[test]
fn bool_and_u64_settings() {
    let config = object(vec![
        ("flag", JsonValue::Bool(true)),
        ("size", JsonValue::Number(JsonNumber::PosInt(256))),
        ("neg", JsonValue::Number(JsonNumber::NegInt(-1))),
        ("float", JsonValue::Number(JsonNumber::Float("1.5".to_string()))),
    ]);
    assert_eq!(get_config_bool(&config, "flag"), Some(true));
    assert_eq!(get_config_bool(&config, "size"), None);
    assert_eq!(get_config_u64(&config, "size"), Some(256));
    assert_eq!(get_config_u64(&config, "neg"), None);
    assert_eq!(get_config_u64(&config, "float"), None);
    assert_eq!(get_config_u64(&config, "flag"), None);
}

#[test]
fn lookups_on_a_non_object_find_nothing() {
    assert_eq!(get_config_string(&JsonValue::Null, "a"), None);
    assert_eq!(get_config_bool(&JsonValue::Array(vec![JsonValue::Bool(true)]), "0"), None);
}

#[test]
fn system_settings_read_like_settings() {
    let system = object(vec![("config-path", s("~/roextract.json")), ("portable", JsonValue::Bool(false))]);
    assert_eq!(get_system_config_string(&system, "config-path"), Some("~/roextract.json".to_string()));
    assert_eq!(get_system_config_bool(&system, "portable"), Some(false));
}

#[test]
fn set_then_get_reads_back() {
    let mut config = empty();
    set_config_value(&mut config, "language", s("fr-FR"));
    assert_eq!(get_config_string(&config, "language"), Some("fr-FR".to_string()));
    set_config_value(&mut config, "language", s("de-DE"));
    assert_eq!(get_config_string(&config, "language"), Some("de-DE".to_string()));
    assert_eq!(config, object(vec![("language", s("de-DE"))]));
}

#[test]
fn set_on_null_makes_an_object() {
    let mut config = JsonValue::Null;
    set_config_value(&mut config, "welcomed", JsonValue::Bool(true));
    assert_eq!(config, object(vec![("welcomed", JsonValue::Bool(true))]));
}

#[test]
fn set_keeps_other_settings() {
    let mut config = object(vec![("a", JsonValue::Bool(true))]);
    set_config_value(&mut config, "b", JsonValue::Bool(false));
    assert_eq!(get_config_bool(&config, "a"), Some(true));
    assert_eq!(get_config_bool(&config, "b"), Some(false));
}

#[test]
fn remove_then_get_finds_nothing() {
    let mut config = object(vec![("a", JsonValue::Bool(true)), ("b", s("x"))]);
    remove_config_value(&mut config, "a");
    assert_eq!(get_config_bool(&config, "a"), None);
    assert_eq!(config, object(vec![("b", s("x"))]));
    remove_config_value(&mut config, "missing");
    assert_eq!(config, object(vec![("b", s("x"))]));
}

#[test]
fn remove_on_a_non_object_changes_nothing() {
    let mut config = JsonValue::Bool(true);
    remove_config_value(&mut config, "a");
    assert_eq!(config, JsonValue::Bool(true));
}

#[test]
fn alias_defaults_to_asset_name() {
    let config = empty();
    assert_eq!(get_asset_alias(&config, "123abc"), "123abc");
}

#[test]
fn alias_round_trip_without_quotes() {
    let mut config = empty();
    set_asset_alias(&mut config, "123abc", "my \"sound\"");
    assert_eq!(get_asset_alias(&config, "123abc"), "my sound");
    assert_eq!(get_asset_alias(&config, "other"), "other");
    assert_eq!(config, object(vec![("aliases", object(vec![("123abc", s("my sound"))]))]));
}

#[test]
fn alias_keeps_other_settings_and_aliases() {
    let mut config = object(vec![("theme", s("dark")), ("aliases", object(vec![("x", s("old"))]))]);
    set_asset_alias(&mut config, "y", "new");
    assert_eq!(get_config_string(&config, "theme"), Some("dark".to_string()));
    assert_eq!(get_asset_alias(&config, "x"), "old");
    assert_eq!(get_asset_alias(&config, "y"), "new");
}

#[test]
fn config_file_defaults_to_empty_object() {
    assert_eq!(config_from_file(None), (empty(), None));
    let (config, error) = config_from_file(Some(b"{ not json".to_vec()));
    assert_eq!(config, empty());
    assert!(error.is_some());
    let (config, error) = config_from_file(Some(b"{\"theme\": \"dark\", \"n\": 3, \"m\": -2, \"f\": 1.5, \"a\": [true, null]}".to_vec()));
    assert_eq!(error, None);
    assert_eq!(get_config_string(&config, "theme"), Some("dark".to_string()));
    assert_eq!(get_config_u64(&config, "n"), Some(3));
    assert_eq!(get_config_u64(&config, "m"), None);
    assert_eq!(config_from_file(Some(b"null".to_vec())), (JsonValue::Null, None));
}

#[test]
fn config_file_contents_read_back() {
    let config = object(vec![
        ("theme", s("dark")),
        ("n", JsonValue::Number(JsonNumber::PosInt(7))),
        ("m", JsonValue::Number(JsonNumber::NegInt(-7))),
        ("a", JsonValue::Array(vec![JsonValue::Bool(true), JsonValue::Null])),
    ]);
    let bytes = config_file_contents(&config);
    assert!(bytes.starts_with(b"{\n  "));
    let (back, error) = config_from_file(Some(bytes));
    assert_eq!(error, None);
    assert_eq!(get_config_string(&back, "theme"), Some("dark".to_string()));
    assert_eq!(get_config_u64(&back, "n"), Some(7));
    assert_eq!(back, config_from_file(Some(config_file_contents(&back))).0);
}

#[test]
fn config_file_from_system_config() {
    let system = object(vec![("config-path", s("~/cfg/RoExtract.json"))]);
    assert_eq!(detect_config_file(&system, "alice"), "/home/alice/cfg/RoExtract.json");
    let system = object(vec![("config-path", s("%Temp%\\rx.json"))]);
    assert_eq!(detect_config_file(&system, "bob"), "C:\\Users\\bob\\AppData\\Local\\Temp\\rx.json");
    assert_eq!(detect_config_file(&empty(), "alice"), "RoExtract-config.json");
    let system = object(vec![("config-path", JsonValue::Bool(true))]);
    assert_eq!(detect_config_file(&system, "alice"), "RoExtract-config.json");
}

#[test]
fn copies_are_equal() {
    let config = object(vec![
        ("a", JsonValue::Array(vec![JsonValue::Null, s("x"), object(vec![("n", JsonValue::Number(JsonNumber::NegInt(-5)))])])),
        ("b", JsonValue::Number(JsonNumber::Float("2.5".to_string()))),
    ]);
    assert_eq!(copy_json(&config), config);
    assert_eq!(get_config(&config), config);
}

#[test]
fn assignability_checks() {
    assert!(config_assignable(&JsonValue::Null));
    assert!(config_assignable(&empty()));
    assert!(!config_assignable(&JsonValue::Bool(true)));
    assert!(alias_can_be_set(&empty()));
    assert!(!alias_can_be_set(&object(vec![("aliases", s("not an object"))])));
    assert!(!alias_can_be_set(&JsonValue::Array(Vec::new())));
    let config = object(vec![("aliases", object(vec![("a", s("x")), ("b", JsonValue::Bool(true))]))]);
    assert!(alias_is_readable(&config, "a"));
    assert!(!alias_is_readable(&config, "b"));
    assert!(alias_is_readable(&config, "c"));
}

#[test]
fn setting_survives_later_writes_to_other_settings() {
    let mut config = JsonValue::Null;
    set_config_value(&mut config, "language", s("fr-\"FR\""));
    set_config_value(&mut config, "theme", s("dark"));
    remove_config_value(&mut config, "welcomed");
    set_asset_alias(&mut config, "abc", "a sound");
    set_config_value(&mut config, "theme", s("light"));
    assert_eq!(get_config_string(&config, "language"), Some("fr-FR".to_string()));
}

#[test]
fn alias_survives_later_writes_to_other_settings() {
    let mut config = object(vec![("theme", s("dark"))]);
    set_asset_alias(&mut config, "abc", "\"drum\" loop");
    set_config_value(&mut config, "language", s("en-GB"));
    set_asset_alias(&mut config, "xyz", "other");
    remove_config_value(&mut config, "theme");
    assert_eq!(get_asset_alias(&config, "abc"), "drum loop");
    assert_eq!(get_asset_alias(&config, "xyz"), "other");
}
