use lingua::config::find_config_value;
use lingua::prelude::{ConfigFile, Lingua, LinguaError};

fn german() -> Lingua {
    let mut lingua = Lingua::new("languages").build();
    lingua.load_translations_from_str("de", r#"{"hello": "Hallo"}"#).unwrap();
    lingua
}

fn content(text: &str) -> ConfigFile {
    ConfigFile::Content(text.to_string())
}

#[test]
fn config_with_a_loaded_language() {
    let lingua = german();
    assert_eq!(
        lingua.load_lang_from_config("app.conf", &content("language=de"), "language").unwrap(),
        "de"
    );
}

#[test]
fn config_with_an_unloaded_language() {
    let lingua = german();
    match lingua.load_lang_from_config("app.conf", &content("language=fr"), "language") {
        Err(LinguaError::LanguageNotAvailable(code)) => assert_eq!(code, "fr"),
        other => panic!("unexpected: {:?}", other),
    }
}

#[test]
fn config_that_is_missing() {
    let lingua = german();
    match lingua.load_lang_from_config("nowhere/app.conf", &ConfigFile::Missing, "language") {
        Err(LinguaError::ConfigFileNotFound(path)) => assert_eq!(path, "nowhere/app.conf"),
        other => panic!("unexpected: {:?}", other),
    }
}

#[test]
fn config_that_cannot_be_read() {
    let lingua = german();
    let file = ConfigFile::Unreadable("permission denied".to_string());
    match lingua.load_lang_from_config("app.conf", &file, "language") {
        Err(LinguaError::ConfigFileReadError(why)) => assert_eq!(why, "permission denied"),
        other => panic!("unexpected: {:?}", other),
    }
}

#[test]
fn config_without_the_key() {
    let lingua = german();
    match lingua.load_lang_from_config("app.conf", &content("lang=de\n# language=de"), "language") {
        Err(LinguaError::ValueNotFoundInConfig(key)) => assert_eq!(key, "language"),
        other => panic!("unexpected: {:?}", other),
    }
    assert!(matches!(
        lingua.load_lang_from_config("app.conf", &content(""), "language"),
        Err(LinguaError::ValueNotFoundInConfig(_))
    ));
}

#[test]
fn value_of_a_plain_entry() {
    assert_eq!(find_config_value("language=de", "language"), Some("de".to_string()));
    assert_eq!(find_config_value("language: de", "language"), Some("de".to_string()));
    assert_eq!(find_config_value("  language  =  de  ", "language"), Some("de".to_string()));
    assert_eq!(find_config_value("language=", "language"), Some(String::new()));
    assert_eq!(find_config_value("language", "language"), None);
}

#[test]
fn quotes_and_commas_are_no_part_of_key_or_value() {
    assert_eq!(find_config_value("\"language\": \"de\",", "language"), Some("de".to_string()));
    assert_eq!(find_config_value("language = \"de\"", "language"), Some("de".to_string()));
    assert_eq!(find_config_value("language = \"de\",,", "language"), Some("de".to_string()));
    assert_eq!(find_config_value("language = ,\"de\"", "language"), Some("de".to_string()));
    assert_eq!(find_config_value("language = \"d\"e\"", "language"), Some("d\"e".to_string()));
    assert_eq!(find_config_value("language = de ,", "language"), Some("de ".to_string()));
}

#[test]
fn key_is_cleaned_before_it_is_looked_for() {
    assert_eq!(find_config_value("language=de", "\"language\""), Some("de".to_string()));
    assert_eq!(find_config_value("language=de", "\" language \""), Some("de".to_string()));
    assert_eq!(find_config_value("language=de", " language "), Some("de".to_string()));
    assert_eq!(find_config_value("language=de", "Language"), None);
}

#[test]
fn comments_are_skipped() {
    assert_eq!(find_config_value("# language=fr\nlanguage=de", "language"), Some("de".to_string()));
    assert_eq!(find_config_value("  // language=fr\nlanguage=de", "language"), Some("de".to_string()));
    assert_eq!(find_config_value("/ language=fr", "/ language"), Some("fr".to_string()));
}

#[test]
fn first_line_that_binds_the_key_counts() {
    assert_eq!(find_config_value("a=1\nlanguage=de\nlanguage=fr", "language"), Some("de".to_string()));
    assert_eq!(find_config_value("language=de\r\nother=x\r\n", "other"), Some("x".to_string()));
    assert_eq!(find_config_value("\n\nlanguage=de\n", "language"), Some("de".to_string()));
}

#[test]
fn colon_is_tried_before_the_equals_sign() {
    assert_eq!(find_config_value("url: a=b", "url"), Some("a=b".to_string()));
    assert_eq!(find_config_value("language=de:at", "language"), Some("de:at".to_string()));
    assert_eq!(find_config_value("x=language:de", "x=language"), Some("de".to_string()));
    assert_eq!(find_config_value("x=language:de", "x"), Some("language:de".to_string()));
}

#[test]
fn whitespace_of_any_kind_is_trimmed() {
    assert_eq!(
        find_config_value("\t\u{a0}language\u{2003}=\u{3000}de\u{85}", "language"),
        Some("de".to_string())
    );
    assert_eq!(find_config_value("language=\u{200b}de", "language"), Some("\u{200b}de".to_string()));
}
