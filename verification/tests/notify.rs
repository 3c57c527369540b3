use lingua::prelude::{Lingua, LinguaError, Listeners};
use std::cell::RefCell;
use std::rc::Rc;

fn two_languages() -> Lingua {
    let mut lingua = Lingua::empty("languages");
    lingua.load_translations_from_str("en", r#"{"hello": "Hello"}"#).unwrap();
    lingua.load_translations_from_str("de", r#"{"hello": "Hallo"}"#).unwrap();
    lingua
}

fn recording(log: &Rc<RefCell<Vec<String>>>, name: &'static str) -> Box<dyn Fn(&str)> {
    let log = Rc::clone(log);
    Box::new(move |code: &str| log.borrow_mut().push(format!("{}:{}", name, code)))
}

#[test]
fn callbacks_run_in_the_order_of_registration() {
    let log = Rc::new(RefCell::new(Vec::new()));
    let mut listeners: Listeners<Box<dyn Fn(&str)>> = Listeners::new();
    assert_eq!(listeners.len(), 0);
    Lingua::on_language_change(&mut listeners, recording(&log, "first"));
    listeners.register(recording(&log, "second"));
    assert_eq!(listeners.len(), 2);

    let mut lingua = two_languages();
    assert!(lingua.switch_language("de", &listeners).unwrap());
    assert_eq!(lingua.get_language().unwrap(), "de");
    assert_eq!(*log.borrow(), vec!["first:de", "second:de"]);
}

#[test]
fn callbacks_run_again_where_the_language_stays() {
    let log = Rc::new(RefCell::new(Vec::new()));
    let mut listeners: Listeners<Box<dyn Fn(&str)>> = Listeners::new();
    listeners.register(recording(&log, "only"));

    let mut lingua = two_languages();
    assert!(lingua.switch_language("en", &listeners).unwrap());
    assert!(lingua.switch_language("en", &listeners).unwrap());
    assert_eq!(*log.borrow(), vec!["only:en", "only:en"]);
}

#[test]
fn no_callback_runs_where_the_language_is_not_loaded() {
    let log = Rc::new(RefCell::new(Vec::new()));
    let mut listeners: Listeners<Box<dyn Fn(&str)>> = Listeners::new();
    listeners.register(recording(&log, "only"));

    let mut lingua = two_languages();
    match lingua.switch_language("fr", &listeners) {
        Err(LinguaError::LanguageNotAvailable(code)) => assert_eq!(code, "fr"),
        other => panic!("unexpected: {:?}", other),
    }
    assert_eq!(lingua.get_language().unwrap(), "en");
    assert!(log.borrow().is_empty());
}

#[test]
fn notify_calls_every_callback() {
    let log = Rc::new(RefCell::new(Vec::new()));
    let mut listeners: Listeners<Box<dyn Fn(&str)>> = Listeners::new();
    listeners.notify("de");
    assert!(log.borrow().is_empty());
    listeners.register(recording(&log, "a"));
    listeners.register(recording(&log, "b"));
    listeners.register(recording(&log, "c"));
    listeners.notify("ja");
    assert_eq!(*log.borrow(), vec!["a:ja", "b:ja", "c:ja"]);
}
