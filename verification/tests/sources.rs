use lingua::source::{default_languages, language_code, language_codes, language_file_name, language_url};

#[test]
fn language_code_is_the_name_without_its_ending() {
    assert_eq!(language_code("de.json"), Some("de".to_string()));
    assert_eq!(language_code("pt-BR.json"), Some("pt-BR".to_string()));
    assert_eq!(language_code("de.json.json"), Some("de".to_string()));
    assert_eq!(language_code(".json"), Some(String::new()));
    assert_eq!(language_code("de.txt"), None);
    assert_eq!(language_code("de.JSON"), None);
    assert_eq!(language_code("json"), None);
    assert_eq!(language_code("de.json "), None);
    assert_eq!(language_code(""), None);
    assert_eq!(language_code("a.jsonb.json"), Some("a.jsonb".to_string()));
}

#[test]
fn language_codes_keeps_the_order_of_the_names() {
    let names = vec![
        "en.json".to_string(),
        "readme.md".to_string(),
        "de.json".to_string(),
        "notes".to_string(),
    ];
    assert_eq!(language_codes(&names), vec!["en".to_string(), "de".to_string()]);
    assert!(language_codes(&Vec::new()).is_empty());
}

#[test]
fn language_file_name_adds_the_ending() {
    assert_eq!(language_file_name("de"), "de.json");
    assert_eq!(language_file_name(""), ".json");
}

#[test]
fn language_url_starts_at_the_root() {
    assert_eq!(language_url("languages", "de"), "/languages/de.json");
    assert_eq!(language_url("/i18n", "fr"), "/i18n/fr.json");
    assert_eq!(language_url("", "en"), "//en.json");
    assert_eq!(language_url("/", "en"), "//en.json");
}

#[test]
fn default_languages_are_seven() {
    assert_eq!(default_languages(), vec!["en", "de", "fr", "es", "it", "ja", "zh"]);
}
