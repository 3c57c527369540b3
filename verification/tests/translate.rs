use lingua::json::table_from_json;
use lingua::prelude::{ConfigFile, Lingua, LinguaError};
use serde_json::Value;

fn with_table(code: &str, map: &serde_json::Map<String, Value>) -> Lingua {
    let mut lingua = Lingua::new("languages").build();
    lingua.insert_table(code, table_from_json(map));
    assert!(lingua.set_language(code).unwrap());
    lingua
}

#[test]
fn lib_test_translate_simple() {
    let mut map = serde_json::Map::new();
    map.insert("hello".to_string(), Value::String("Hallo".to_string()));
    let lingua = with_table("de", &map);

    assert_eq!(lingua.t("hello", &[]), "Hallo");
}

#[test]
fn lib_test_translate_nested() {
    let mut map = serde_json::Map::new();
    let mut submenu = serde_json::Map::new();
    submenu.insert("save".to_string(), Value::String("Speichern".to_string()));

    let mut menu = serde_json::Map::new();
    menu.insert("file".to_string(), Value::Object(submenu));

    map.insert("menu".to_string(), Value::Object(menu));
    let lingua = with_table("de", &map);

    assert_eq!(lingua.t("menu.file.save", &[]), "Speichern");
}

#[test]
fn lib_test_translate_params() {
    let mut map = serde_json::Map::new();
    map.insert(
        "welcome_user".to_string(),
        Value::String("Hallo {{name}}!".to_string()),
    );
    let lingua = with_table("de", &map);

    assert_eq!(lingua.t("welcome_user", &[("name", "Max")]), "Hallo Max!");
}

#[test]
fn lingua_test_translate_simple() {
    let mut map = serde_json::Map::new();
    map.insert("hello".to_string(), Value::String("Hallo".to_string()));
    let lingua = with_table("de", &map);

    assert_eq!(lingua.translate("hello", &[]).unwrap(), "Hallo");
}

#[test]
fn lingua_test_translate_nested() {
    let mut map = serde_json::Map::new();
    let mut submenu = serde_json::Map::new();
    submenu.insert("save".to_string(), Value::String("Speichern".to_string()));

    let mut menu = serde_json::Map::new();
    menu.insert("file".to_string(), Value::Object(submenu));

    map.insert("menu".to_string(), Value::Object(menu));
    let lingua = with_table("de", &map);

    assert_eq!(
        lingua.translate("menu.file.save", &[]).unwrap(),
        "Speichern"
    );
}

#[test]
fn lingua_test_translate_params() {
    let mut map = serde_json::Map::new();
    map.insert(
        "greeting".to_string(),
        Value::String("Hello, {{name}}!".to_string()),
    );
    let lingua = with_table("en", &map);

    assert_eq!(
        lingua.translate("greeting", &[("name", "Alice")]).unwrap(),
        "Hello, Alice!"
    );
}

#[test]
fn test_translate_missing_key() {
    let mut map = serde_json::Map::new();
    map.insert("hello".to_string(), Value::String("Hallo".to_string()));
    let lingua = with_table("de", &map);

    assert!(lingua.translate("world", &[]).is_err());
}

#[test]
fn test_load_lang_from_config() {
    let mut map = serde_json::Map::new();
    map.insert("hello".to_string(), Value::String("Hallo".to_string()));
    let lingua = with_table("de", &map);

    let simple_config = ConfigFile::Content("# Kommentar\nlanguage=de\nsetting=value".to_string());
    let json_config = ConfigFile::Content(
        r#"{
            "language": "de",
            "setting": "value"
        }"#
        .to_string(),
    );
    let toml_config =
        ConfigFile::Content("# Kommentar\nlanguage = \"de\"\nsetting = \"value\"".to_string());

    assert_eq!(
        lingua
            .load_lang_from_config("simple_config.txt", &simple_config, "language")
            .unwrap(),
        "de"
    );
    assert_eq!(
        lingua
            .load_lang_from_config("json_config.txt", &json_config, "language")
            .unwrap(),
        "de"
    );
    assert_eq!(
        lingua
            .load_lang_from_config("toml_config.txt", &toml_config, "language")
            .unwrap(),
        "de"
    );

    let result = lingua.load_lang_from_config("invalid_config.txt", &ConfigFile::Missing, "language");
    assert!(matches!(result, Err(LinguaError::ConfigFileNotFound(_))));
}
