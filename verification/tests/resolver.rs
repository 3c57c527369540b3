use lingua::json::{parse_table, table_from_json};
use lingua::prelude::{Lingua, LinguaError, Node, Table};
use lingua::resolver::resolve;
use serde_json::Value;

fn menu_table() -> Table {
    parse_table(r#"{"menu": {"file": {"save": "Speichern"}}, "hello": "Hallo"}"#).unwrap()
}

fn german() -> Lingua {
    let mut lingua = Lingua::new("languages").build();
    lingua.insert_table("de", menu_table());
    assert!(lingua.set_language("de").unwrap());
    lingua
}

#[test]
fn nested_key_resolves_to_its_leaf() {
    let lingua = german();
    assert_eq!(lingua.translate("menu.file.save", &[]).unwrap(), "Speichern");
}

#[test]
fn missing_last_name_is_key_not_found() {
    let lingua = german();
    match lingua.translate("menu.file.open", &[]) {
        Err(LinguaError::KeyNotFound(key)) => assert_eq!(key, "menu.file.open"),
        other => panic!("unexpected: {:?}", other),
    }
}

#[test]
fn lenient_form_gives_the_key_back() {
    let lingua = german();
    assert_eq!(lingua.t("menu.file.open", &[]), "menu.file.open");
    assert_eq!(lingua.t("menu.file.save", &[]), "Speichern");
}

#[test]
fn leaf_before_the_end_is_key_not_found() {
    let lingua = german();
    assert!(matches!(
        lingua.translate("hello.world", &[]),
        Err(LinguaError::KeyNotFound(_))
    ));
    assert!(matches!(
        lingua.translate("menu.file.save.as", &[]),
        Err(LinguaError::KeyNotFound(_))
    ));
}

#[test]
fn missing_first_name_is_key_not_found() {
    let lingua = german();
    assert!(matches!(
        lingua.translate("edit.copy", &[]),
        Err(LinguaError::KeyNotFound(_))
    ));
}

#[test]
fn empty_key_and_empty_names_do_not_resolve() {
    let lingua = german();
    assert!(matches!(lingua.translate("", &[]), Err(LinguaError::KeyNotFound(_))));
    assert!(matches!(lingua.translate("menu..save", &[]), Err(LinguaError::KeyNotFound(_))));
    assert!(matches!(lingua.translate("menu.", &[]), Err(LinguaError::KeyNotFound(_))));
    assert!(matches!(lingua.translate(".menu", &[]), Err(LinguaError::KeyNotFound(_))));
}

#[test]
fn empty_name_is_a_name_like_any_other() {
    let table = parse_table(r#"{"": {"": "leer"}}"#).unwrap();
    assert_eq!(resolve(&table, ".", &[]).unwrap(), "leer");
}

#[test]
fn text_leaf_comes_back_unchanged_without_params() {
    let table = parse_table(r#"{"a": "  \"quoted\" {{name}}  "}"#).unwrap();
    assert_eq!(resolve(&table, "a", &[]).unwrap(), "  \"quoted\" {{name}}  ");
}

#[test]
fn scalars_are_given_as_their_text() {
    let table =
        parse_table(r#"{"count": 5, "ratio": 1.5, "on": true, "off": false, "none": null}"#)
            .unwrap();
    assert_eq!(resolve(&table, "count", &[]).unwrap(), "5");
    assert_eq!(resolve(&table, "ratio", &[]).unwrap(), "1.5");
    assert_eq!(resolve(&table, "on", &[]).unwrap(), "true");
    assert_eq!(resolve(&table, "off", &[]).unwrap(), "false");
    assert_eq!(resolve(&table, "none", &[]).unwrap(), "null");
}

#[test]
fn lists_and_tables_at_the_end_are_given_as_json() {
    let table = parse_table(r#"{"list": [1, "two"], "menu": {"save": "Speichern"}}"#).unwrap();
    assert_eq!(resolve(&table, "list", &[]).unwrap(), r#"[1,"two"]"#);
    assert_eq!(resolve(&table, "menu", &[]).unwrap(), r#"{"save":"Speichern"}"#);
}

#[test]
fn quotes_at_the_ends_of_a_scalar_are_stripped() {
    let mut table = Table::new();
    table.insert("a".to_string(), Node::Scalar("\"\"x\"y\"".to_string()));
    table.insert("b".to_string(), Node::Nested(Table::new(), "\"{}\"".to_string()));
    table.insert("c".to_string(), Node::Text("\"kept\"".to_string()));
    assert_eq!(resolve(&table, "a", &[]).unwrap(), "x\"y");
    assert_eq!(resolve(&table, "b", &[]).unwrap(), "{}");
    assert_eq!(resolve(&table, "c", &[]).unwrap(), "\"kept\"");
}

#[test]
fn parameter_replaces_every_occurrence() {
    let table = parse_table(r#"{"g": "{{name}}, {{name}} and {{ name }}{{name}}"}"#).unwrap();
    assert_eq!(
        resolve(&table, "g", &[("name", "Bob")]).unwrap(),
        "Bob, Bob and {{ name }}Bob"
    );
}

#[test]
fn hello_alice() {
    let table = parse_table(r#"{"greeting": "Hello, {{name}}!"}"#).unwrap();
    assert_eq!(
        resolve(&table, "greeting", &[("name", "Alice")]).unwrap(),
        "Hello, Alice!"
    );
}

#[test]
fn parameters_apply_in_the_order_given() {
    let table = parse_table(r#"{"x": "{{a}}"}"#).unwrap();
    assert_eq!(resolve(&table, "x", &[("a", "{{b}}"), ("b", "done")]).unwrap(), "done");
    assert_eq!(resolve(&table, "x", &[("b", "done"), ("a", "{{b}}")]).unwrap(), "{{b}}");
}

#[test]
fn disjoint_parameters_commute() {
    let table = parse_table(r#"{"x": "{{n}} items for {{who}}"}"#).unwrap();
    let one = resolve(&table, "x", &[("n", "5"), ("who", "Alice")]).unwrap();
    let two = resolve(&table, "x", &[("who", "Alice"), ("n", "5")]).unwrap();
    assert_eq!(one, "5 items for Alice");
    assert_eq!(one, two);
}

#[test]
fn what_a_parameter_put_in_is_not_searched_again_by_itself() {
    let table = parse_table(r#"{"x": "{{a}}"}"#).unwrap();
    assert_eq!(resolve(&table, "x", &[("a", "{{a}}{{a}}")]).unwrap(), "{{a}}{{a}}");
}

#[test]
fn occurrences_are_taken_from_the_left() {
    let table = parse_table(r#"{"x": "{{{a}}}", "y": "{{{{a}}}}"}"#).unwrap();
    assert_eq!(resolve(&table, "x", &[("a", "v")]).unwrap(), "{v}");
    assert_eq!(resolve(&table, "y", &[("a", "v")]).unwrap(), "{{v}}");
}

#[test]
fn parameter_with_an_empty_name_stands_for_four_braces() {
    let table = parse_table(r#"{"x": "a{{}}b"}"#).unwrap();
    assert_eq!(resolve(&table, "x", &[("", "-")]).unwrap(), "a-b");
}

#[test]
fn unused_parameters_change_nothing() {
    let table = parse_table(r#"{"x": "plain"}"#).unwrap();
    assert_eq!(resolve(&table, "x", &[("name", "Alice")]).unwrap(), "plain");
}

#[test]
fn texts_beyond_ascii_resolve() {
    let table = parse_table(r#"{"grüße": {"süd": "Grüß {{wer}}, 你好"}}"#).unwrap();
    assert_eq!(
        resolve(&table, "grüße.süd", &[("wer", "Jürgen")]).unwrap(),
        "Grüß Jürgen, 你好"
    );
}

#[test]
fn table_from_json_keeps_every_member() {
    let mut inner = serde_json::Map::new();
    inner.insert("b".to_string(), Value::Bool(true));
    inner.insert("a".to_string(), Value::String("x".to_string()));
    let mut map = serde_json::Map::new();
    map.insert("in".to_string(), Value::Object(inner));
    map.insert("n".to_string(), Value::Null);
    let table = table_from_json(&map);
    assert_eq!(table.entries.len(), 2);
    assert!(matches!(table.get("n"), Some(Node::Scalar(text)) if text == "null"));
    match table.get("in") {
        Some(Node::Nested(sub, text)) => {
            assert_eq!(text, r#"{"a":"x","b":true}"#);
            assert_eq!(sub.entries.len(), 2);
            assert!(matches!(sub.get("a"), Some(Node::Text(text)) if text == "x"));
            assert!(matches!(sub.get("b"), Some(Node::Scalar(text)) if text == "true"));
        }
        other => panic!("unexpected: {:?}", other),
    }
    assert!(table.get("missing").is_none());
}

#[test]
fn last_of_two_members_of_one_name_counts() {
    let table = parse_table(r#"{"a": "first", "a": "second"}"#).unwrap();
    assert_eq!(resolve(&table, "a", &[]).unwrap(), "second");
}

#[test]
fn insert_replaces_and_appends() {
    let mut table = Table::new();
    table.insert("a".to_string(), Node::Text("one".to_string()));
    table.insert("b".to_string(), Node::Text("two".to_string()));
    table.insert("a".to_string(), Node::Text("three".to_string()));
    assert_eq!(table.entries.len(), 2);
    assert_eq!(resolve(&table, "a", &[]).unwrap(), "three");
    assert_eq!(resolve(&table, "b", &[]).unwrap(), "two");
}

#[test]
fn first_entry_of_a_name_is_the_one_found() {
    let table = Table {
        entries: vec![
            ("a".to_string(), Node::Text("one".to_string())),
            ("a".to_string(), Node::Text("two".to_string())),
        ],
    };
    assert_eq!(resolve(&table, "a", &[]).unwrap(), "one");
}

#[test]
fn text_that_is_no_object_does_not_parse() {
    assert!(parse_table("[1, 2]").is_err());
    assert!(parse_table("\"text\"").is_err());
    assert!(parse_table("{\"a\": ").is_err());
    assert!(parse_table("").is_err());
    assert!(parse_table("{}").unwrap().entries.is_empty());
}

#[test]
fn every_order_of_plain_parameters_gives_one_text() {
    let table =
        parse_table(r#"{"x": "{{a}} and {{b}}, then {{c}}{{a}}; {{d}} stays, so does {{ a }}"}"#)
            .unwrap();
    let (a, b, c) = (("a", "1"), ("b", "two"), ("c", ""));
    let expected = "1 and two, then 1; {{d}} stays, so does {{ a }}";
    let orders = [[a, b, c], [a, c, b], [b, a, c], [b, c, a], [c, a, b], [c, b, a]];
    for order in orders {
        assert_eq!(resolve(&table, "x", &order).unwrap(), expected);
    }
}

#[test]
fn first_of_two_parameters_of_one_name_counts() {
    let table = parse_table(r#"{"x": "{{a}}-{{a}}"}"#).unwrap();
    assert_eq!(resolve(&table, "x", &[("a", "1"), ("a", "2")]).unwrap(), "1-1");
}
