use roextract::config::JsonValue;
use roextract::locale::{
    choose_language, get_language_list, get_locale, get_message, init_language_list, locale_resources,
    message_or_id, order_languages,
};

fn table() -> Vec<(String, String)> {
    vec![
        ("en-GB".to_string(), "language-name = English (UK)\nhello = Hello\nattr-only =\n    .title = Title\n".to_string()),
        ("fr-FR".to_string(), "language-name = Français\nhello = Bonjour\n".to_string()),
        ("de-DE".to_string(), "language-name = Deutsch\n".to_string()),
    ]
}

fn config_with_language(lang: &str) -> JsonValue {
    JsonValue::Object(vec![("language".to_string(), JsonValue::String(lang.to_string()))])
}

fn empty() -> JsonValue {
    JsonValue::Object(Vec::new())
}

#[test]
fn language_choice_order() {
    assert_eq!(choose_language(Some("de-DE"), &config_with_language("fr-FR"), Some("es-ES".to_string())), "de-DE");
    assert_eq!(choose_language(None, &config_with_language("fr-FR"), Some("es-ES".to_string())), "fr-FR");
    assert_eq!(choose_language(None, &empty(), Some("es-ES".to_string())), "es-ES");
    assert_eq!(choose_language(None, &empty(), None), "en-GB");
}

#[test]
fn resources_fall_back_to_british_english() {
    let t = table();
    assert_eq!(locale_resources(&t, &"fr-FR".to_string()), Some(t[1].1.clone()));
    assert_eq!(locale_resources(&t, &"ja-JP".to_string()), Some(t[0].1.clone()));
    assert_eq!(locale_resources(&Vec::new(), &"ja-JP".to_string()), None);
}

#[test]
fn messages_come_from_the_chosen_bundle() {
    let t = table();
    let bundle = get_locale(Some("fr-FR"), &empty(), None, &t).expect("bundle");
    assert_eq!(get_message(&bundle, "hello", None), "Bonjour");
    let bundle = get_locale(None, &config_with_language("en-GB"), None, &t).expect("bundle");
    assert_eq!(get_message(&bundle, "hello", None), "Hello");
}

#[test]
fn missing_message_gives_its_id() {
    let t = table();
    let bundle = get_locale(None, &empty(), None, &t).expect("bundle");
    assert_eq!(get_message(&bundle, "no-such-message", None), "no-such-message");
    assert_eq!(get_message(&bundle, "attr-only", None), "attr-only");
    assert_eq!(message_or_id(None, "x"), "x");
    assert_eq!(message_or_id(Some("y".to_string()), "x"), "y");
}

#[test]
fn unknown_language_uses_british_english() {
    let t = table();
    let bundle = get_locale(Some("not a language!!"), &empty(), None, &t).expect("bundle");
    assert_eq!(get_message(&bundle, "language-name", None), "English (UK)");
    let bundle = get_locale(None, &empty(), Some("ja-JP".to_string()), &t).expect("bundle");
    assert_eq!(get_message(&bundle, "hello", None), "Hello");
}

#[test]
fn arguments_fill_the_message() {
    let t = vec![("en-GB".to_string(), "greet = Hello { $name }!\nplain = Plain\n".to_string())];
    let bundle = get_locale(None, &empty(), None, &t).expect("bundle");
    let args = vec![("name".to_string(), "Ana".to_string())];
    assert_eq!(get_message(&bundle, "greet", Some(&args)), "Hello \u{2068}Ana\u{2069}!");
    let twice = vec![("name".to_string(), "Ana".to_string()), ("name".to_string(), "Bo".to_string())];
    assert_eq!(get_message(&bundle, "greet", Some(&twice)), "Hello \u{2068}Bo\u{2069}!");
    assert_eq!(get_message(&bundle, "greet", None), "Hello \u{2068}{$name}\u{2069}!");
    assert_eq!(get_message(&bundle, "greet", Some(&Vec::new())), get_message(&bundle, "greet", None));
    assert_eq!(get_message(&bundle, "plain", Some(&args)), "Plain");
    assert_eq!(get_message(&bundle, "absent", Some(&args)), "absent");
}

#[test]
fn unparsable_resources_give_no_bundle() {
    let t = vec![("en-GB".to_string(), "this is { not fluent".to_string())];
    assert!(get_locale(None, &empty(), None, &t).is_none());
}

#[test]
fn system_language_moves_to_front() {
    let langs = vec!["en-GB".to_string(), "fr-FR".to_string(), "de-DE".to_string()];
    assert_eq!(
        order_languages(langs.clone(), &"de-DE".to_string()),
        vec!["de-DE".to_string(), "en-GB".to_string(), "fr-FR".to_string()]
    );
    assert_eq!(order_languages(langs.clone(), &"ja-JP".to_string()), langs);
}

#[test]
fn language_list_names_each_language() {
    let t = table();
    let langs = vec!["en-GB".to_string(), "fr-FR".to_string(), "de-DE".to_string()];
    let list = init_language_list(langs, &empty(), Some("fr-FR".to_string()), &t).expect("list");
    assert_eq!(
        list,
        vec![
            ("fr-FR".to_string(), "Français".to_string()),
            ("en-GB".to_string(), "English (UK)".to_string()),
            ("de-DE".to_string(), "Deutsch".to_string()),
        ]
    );
    assert_eq!(get_language_list(&list), list);
}

#[test]
fn message_value_or_id_by_presence() {
    let t = table();
    let bundle = get_locale(Some("de-DE"), &empty(), None, &t).expect("bundle");
    assert_eq!(get_message(&bundle, "language-name", None), "Deutsch");
    assert_eq!(get_message(&bundle, "hello", None), "hello");
}
