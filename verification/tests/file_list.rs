use roextract::config::{get_asset_alias, get_config_bool, JsonValue};
use roextract::file_list::{
    list_is_empty, matching_entries, mode_for_tab,
    ban_warning_needed, double_click, finish_loading, may_start_loading, toggle_swap, toggle_swap_or_copy,
    list_buttons, DoubleClickAction, FileListUi, ListButton, Navigation,
};

fn empty() -> JsonValue {
    JsonValue::Object(Vec::new())
}

#[test]
fn double_click_opens_outside_swap_and_copy() {
    let mut swapping = false;
    let mut first = None;
    assert_eq!(double_click("a".to_string(), &mut swapping, false, &mut first), DoubleClickAction::Open);
    assert_eq!(first, None);
}

#[test]
fn swap_takes_two_clicks_then_ends() {
    let mut swapping = true;
    let mut first = None;
    assert_eq!(double_click("a".to_string(), &mut swapping, false, &mut first), DoubleClickAction::Select);
    assert_eq!(first, Some("a".to_string()));
    assert_eq!(
        double_click("b".to_string(), &mut swapping, false, &mut first),
        DoubleClickAction::Swap("a".to_string(), "b".to_string())
    );
    assert_eq!(first, None);
    assert!(!swapping);
}

#[test]
fn copy_keeps_its_source() {
    let mut swapping = false;
    let mut first = None;
    assert_eq!(double_click("a".to_string(), &mut swapping, true, &mut first), DoubleClickAction::Select);
    assert_eq!(
        double_click("b".to_string(), &mut swapping, true, &mut first),
        DoubleClickAction::Copy("a".to_string(), "b".to_string())
    );
    assert_eq!(
        double_click("c".to_string(), &mut swapping, true, &mut first),
        DoubleClickAction::Copy("a".to_string(), "c".to_string())
    );
    assert_eq!(first, Some("a".to_string()));
}

#[test]
fn ban_warning_shown_until_accepted() {
    let mut config = empty();
    assert!(ban_warning_needed(&config));
    let mut swapping = false;
    let mut first = Some("x".to_string());
    toggle_swap(&mut config, &mut swapping, &mut first, false);
    assert!(!swapping);
    assert_eq!(config, empty());
    toggle_swap(&mut config, &mut swapping, &mut first, true);
    assert!(swapping);
    assert_eq!(first, Some("x".to_string()));
    assert!(!ban_warning_needed(&config));
    assert_eq!(get_config_bool(&config, "ban-warning-ack"), Some(true));
    toggle_swap_or_copy(&mut config, &mut swapping, &mut first, true);
    assert!(!swapping);
    assert_eq!(first, None);
}

#[test]
fn loading_is_limited_and_not_repeated() {
    let mut loading = vec!["a".to_string()];
    assert!(!may_start_loading(&loading, &"a".to_string(), 4));
    assert!(may_start_loading(&loading, &"b".to_string(), 4));
    assert!(!may_start_loading(&loading, &"b".to_string(), 1));
    loading.push("b".to_string());
    loading.push("a".to_string());
    finish_loading(&mut loading, &"a".to_string());
    assert_eq!(loading, vec!["b".to_string()]);
    finish_loading(&mut loading, &"z".to_string());
    assert_eq!(loading, vec!["b".to_string()]);
}

#[test]
fn tab_change_starts_a_listing() {
    let mut ui = FileListUi::new();
    assert!(ui.show_tab(&"music".to_string()));
    assert!(!ui.show_tab(&"music".to_string()));
    assert!(ui.show_tab(&"images".to_string()));
    assert_eq!(ui.current_tab, Some("images".to_string()));
}

#[test]
fn keyboard_navigation_stays_in_the_list() {
    let mut ui = FileListUi::new();
    assert_eq!(ui.select_next(3), Navigation::SelectFirstVisible);
    assert_eq!(ui.select_previous(), Navigation::SelectFirstVisible);
    ui.selected = Some(0);
    assert_eq!(ui.select_previous(), Navigation::Stay);
    assert_eq!(ui.select_next(3), Navigation::ScrollTo(1));
    assert_eq!(ui.select_next(3), Navigation::ScrollTo(2));
    assert_eq!(ui.select_next(3), Navigation::Stay);
    assert_eq!(ui.selected, Some(2));
    assert_eq!(ui.select_previous(), Navigation::ScrollTo(1));
    ui.end_navigation(Some(1), true);
    assert_eq!(ui.selected, Some(1));
    ui.end_navigation(Some(1), false);
    assert_eq!(ui.selected, None);
}

#[test]
fn escape_cancels_swap_and_copy() {
    let mut ui = FileListUi::new();
    ui.swapping = true;
    ui.copying = true;
    ui.swapping_asset = Some("a".to_string());
    ui.cancel_actions();
    assert!(!ui.swapping && !ui.copying);
    assert_eq!(ui.swapping_asset, None);
}

#[test]
fn swap_button_remembers_the_asset() {
    let mut ui = FileListUi::new();
    let mut config = empty();
    ui.toggle_swapping(&mut config, true, Some("a".to_string()));
    assert!(ui.swapping);
    assert_eq!(ui.swapping_asset, Some("a".to_string()));
    assert_eq!(ui.open_asset("b".to_string()), DoubleClickAction::Swap("a".to_string(), "b".to_string()));
    ui.toggle_copying(&mut config, false, None);
    assert!(!ui.copying);
    assert_eq!(ui.swapping_asset, None);
}

#[test]
fn renaming_sets_alias_and_resets_empty_one() {
    let mut ui = FileListUi::new();
    ui.renaming = true;
    let mut config = empty();
    ui.rename(&mut config, "abc", "abc", "My \"asset\"", false);
    assert!(ui.renaming);
    assert_eq!(get_asset_alias(&config, "abc"), "My asset");
    ui.rename(&mut config, "My asset", "abc", "", true);
    assert!(!ui.renaming);
    assert_eq!(get_asset_alias(&config, "abc"), "abc");
    ui.rename(&mut config, "abc", "abc", "abc", true);
    assert_eq!(get_asset_alias(&config, "abc"), "abc");
}

#[test]
fn tabs_name_their_categories() {
    assert_eq!(mode_for_tab(&"music".to_string()), Some("Music".to_string()));
    assert_eq!(mode_for_tab(&"ktx-files".to_string()), Some("KTX files".to_string()));
    assert_eq!(mode_for_tab(&"rbxm-files".to_string()), Some("RBXM files".to_string()));
    assert_eq!(mode_for_tab(&"settings".to_string()), None);
}

#[test]
fn search_keeps_matching_entries_in_order() {
    let list = vec!["abc123".to_string(), "zzz".to_string(), "123".to_string()];
    assert_eq!(matching_entries(&list, "123"), vec!["abc123".to_string(), "123".to_string()]);
    assert_eq!(matching_entries(&list, ""), list);
    assert!(matching_entries(&list, "nope").is_empty());
}

#[test]
fn placeholder_list_counts_as_empty() {
    assert!(list_is_empty(&Vec::new()));
    assert!(list_is_empty(&vec!["No files to list.".to_string()]));
    assert!(!list_is_empty(&vec!["abc".to_string()]));
    assert!(!list_is_empty(&vec!["No files to list.".to_string(), "x".to_string()]));
}

#[test]
fn search_ignores_case() {
    let list = vec!["MySound".to_string(), "other".to_string(), "ÉCLAIR".to_string()];
    assert_eq!(matching_entries(&list, "mysound"), vec!["MySound".to_string()]);
    assert_eq!(matching_entries(&list, "OTHER"), vec!["other".to_string()]);
    assert_eq!(matching_entries(&list, "éclair"), vec!["ÉCLAIR".to_string()]);
}

#[test]
fn list_buttons_toggle_and_close_the_menu() {
    let mut ui = FileListUi::new();
    ui.asset_context_menu_open = Some(3);
    ui.toggle_search();
    assert!(ui.searching);
    assert_eq!(ui.asset_context_menu_open, None);
    ui.asset_context_menu_open = Some(1);
    ui.toggle_renaming();
    assert!(ui.renaming);
    assert!(ui.searching);
    assert_eq!(ui.asset_context_menu_open, None);
    ui.toggle_search();
    ui.toggle_renaming();
    assert!(!ui.searching && !ui.renaming);
    ui.asset_context_menu_open = Some(2);
    ui.close_context_menu();
    assert_eq!(ui.asset_context_menu_open, None);
}

#[test]
fn buttons_offered_by_place_and_tab() {
    assert_eq!(
        list_buttons(true, "images"),
        vec![
            ListButton::Open,
            ListButton::ExtractFile,
            ListButton::Search,
            ListButton::Rename,
            ListButton::ClearCache,
            ListButton::ExtractType,
            ListButton::Refresh,
            ListButton::Swap,
            ListButton::Copy,
            ListButton::ImagePreview,
        ]
    );
    assert_eq!(
        list_buttons(false, "sounds"),
        vec![
            ListButton::Search,
            ListButton::Rename,
            ListButton::ClearCache,
            ListButton::ExtractType,
            ListButton::Refresh,
            ListButton::Swap,
            ListButton::Copy,
        ]
    );
}

#[test]
fn clicks_select_and_open_the_menu() {
    let mut ui = FileListUi::new();
    assert!(!ui.click_entry(2, true, false));
    assert_eq!(ui.selected, Some(2));
    ui.renaming = true;
    assert!(!ui.click_entry(5, true, false));
    assert_eq!(ui.selected, Some(2));
    assert!(ui.click_entry(5, false, true));
    assert_eq!((ui.selected, ui.asset_context_menu_open), (Some(5), Some(5)));
    assert!(!ui.click_entry(4, false, false));
    assert!(ui.click_entry(5, false, false));
}
