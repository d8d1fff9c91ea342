use roextract::config::JsonValue;
use roextract::gui::{
    dependency_label, detect_japanese_font, display_image_preview, get_default_tabs, hide_username_from_logs,
    japanese_font_candidates, line_kind, may_open_main_window, needs_welcome, shown_logs, tab_for_key, theme_choice,
    toggle_image_preview, show_toolbar, update_check_due, begin_update_check, LineKind, Theme,
};
use roextract::log::LogBuffer;

fn config(members: Vec<(&str, JsonValue)>) -> JsonValue {
    JsonValue::Object(members.into_iter().map(|(k, v)| (k.to_string(), v)).collect())
}

#[test]
fn theme_from_configuration() {
    assert_eq!(theme_choice(&config(vec![("theme", JsonValue::String("dark".to_string()))])), Theme::Dark);
    assert_eq!(theme_choice(&config(vec![("theme", JsonValue::String("\"light\"".to_string()))])), Theme::Light);
    assert_eq!(theme_choice(&config(vec![("theme", JsonValue::String("system".to_string()))])), Theme::System);
    assert_eq!(theme_choice(&config(vec![])), Theme::System);
}

#[test]
fn log_lines_are_coloured_by_kind() {
    assert_eq!(line_kind("2024  WARN:  slow"), LineKind::Warning);
    assert_eq!(line_kind("2024  ERROR: bad"), LineKind::Error);
    assert_eq!(line_kind("2024  CRITICAL: worse"), LineKind::Error);
    assert_eq!(line_kind("WARN and ERROR"), LineKind::Warning);
    assert_eq!(line_kind("2024  INFO:  fine"), LineKind::Plain);
}

#[test]
fn logs_hide_names_by_default() {
    assert!(hide_username_from_logs(&config(vec![])));
    assert!(!hide_username_from_logs(&config(vec![("hide_username_from_logs", JsonValue::Bool(false))])));
    let mut log = LogBuffer::new();
    log.push("bob was here");
    assert_eq!(shown_logs(&log, true, "bob", "Bob B", "box"), "username was here\n");
    assert_eq!(shown_logs(&log, false, "bob", "Bob B", "box"), "bob was here\n");
}

#[test]
fn tabs_and_number_keys() {
    let tabs = get_default_tabs();
    assert_eq!(tabs, vec!["music", "sounds", "images", "rbxm-files", "ktx-files", "settings", "logs", "about"]);
    assert_eq!(tab_for_key(1, tabs.len()), Some(0));
    assert_eq!(tab_for_key(8, tabs.len()), Some(7));
    assert_eq!(tab_for_key(0, tabs.len()), None);
    assert_eq!(tab_for_key(9, tabs.len()), None);
}

#[test]
fn welcome_before_main_window() {
    assert!(needs_welcome(&config(vec![])));
    assert!(may_open_main_window(&config(vec![])));
    let welcomed = config(vec![("welcomed", JsonValue::Bool(true))]);
    assert!(!needs_welcome(&welcomed));
    assert!(may_open_main_window(&welcomed));
    let closed = config(vec![("welcomed", JsonValue::Bool(false))]);
    assert!(needs_welcome(&closed));
    assert!(!may_open_main_window(&closed));
}

#[test]
fn japanese_font_is_first_existing_candidate() {
    let candidates = japanese_font_candidates("ann");
    assert_eq!(
        candidates,
        vec![
            "C:\\Windows\\Fonts\\msgothic.ttc",
            "/usr/share/fonts/noto-cjk/NotoSerifCJK-Regular.ttc",
            "/home/ann/.local/share/fonts/noto-cjk/NotoSerifCJK-Regular.ttc",
            "/home/ann/.fonts/noto-cjk/NotoSerifCJK-Regular.ttc",
        ]
    );
    assert_eq!(
        detect_japanese_font(&candidates, &vec![false, false, true, true]),
        Some("/home/ann/.local/share/fonts/noto-cjk/NotoSerifCJK-Regular.ttc".to_string())
    );
    assert_eq!(detect_japanese_font(&candidates, &vec![false; 4]), None);
}

#[test]
fn dependency_links_drop_the_host() {
    assert_eq!(dependency_label("https://github.com/emilk/egui"), "emilk/egui");
    assert_eq!(dependency_label("https://example.com/x"), "https://example.com/x");
}

#[test]
fn image_previews_only_on_images_tab() {
    let mut c = config(vec![]);
    assert!(!display_image_preview(&c, &"images".to_string()));
    toggle_image_preview(&mut c);
    assert!(display_image_preview(&c, &"images".to_string()));
    assert!(!display_image_preview(&c, &"sounds".to_string()));
    toggle_image_preview(&mut c);
    assert!(!display_image_preview(&c, &"images".to_string()));
}

#[test]
fn toolbar_shown_unless_turned_off() {
    assert!(show_toolbar(&config(vec![])));
    assert!(show_toolbar(&config(vec![("use_topbar_buttons", JsonValue::Bool(true))])));
    assert!(!show_toolbar(&config(vec![("use_topbar_buttons", JsonValue::Bool(false))])));
    assert!(show_toolbar(&JsonValue::Null));
}

#[test]
fn update_check_runs_once_when_asked_for() {
    let on = config(vec![("check_for_updates", JsonValue::Bool(true))]);
    assert!(update_check_due(false, &on));
    assert!(!update_check_due(true, &on));
    assert!(!update_check_due(false, &config(vec![])));
    assert!(!update_check_due(false, &config(vec![("check_for_updates", JsonValue::Bool(false))])));
}

#[test]
fn update_check_begins_on_the_first_frame_only() {
    let on = config(vec![("check_for_updates", JsonValue::Bool(true))]);
    let mut started = false;
    assert!(begin_update_check(&mut started, &on));
    assert!(started);
    assert!(!begin_update_check(&mut started, &on));
    let mut fresh = false;
    assert!(!begin_update_check(&mut fresh, &config(vec![])));
    assert!(fresh);
}
