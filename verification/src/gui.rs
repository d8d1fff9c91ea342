//! The decisions of the main window: its tabs, its theme, how the log is
//! shown, and which font is added for Japanese text.
use vstd::prelude::*;
use crate::config::{JsonValue, JsonView, get_config_bool, get_config_string, spec_get_string};
use crate::logic::{resolve_path, spec_resolve_path};
use crate::log::{LogBuffer, get_anonymous_logs, get_logs, spec_anonymous_logs};
use crate::text::{contains_text, replace, replace_all, text_contains};

verus! {

/// The colour scheme of the window.
#[derive(Clone, Copy, PartialEq, Eq, Structural, Debug)]
pub enum Theme {
    Dark,
    Light,
    /// Whatever the system uses.
    System,
}

/// The theme the configuration asks for: "dark" or "light"; anything else,
/// or nothing, leaves it to the system.
pub open spec fn spec_theme(config: JsonView) -> Theme {
    match spec_get_string(config, "theme"@) {
        Some(t) => if t == "dark"@ {
            Theme::Dark
        } else if t == "light"@ {
            Theme::Light
        } else {
            Theme::System
        },
        None => Theme::System,
    }
}

/// The theme the configuration asks for.
pub fn theme_choice(config: &JsonValue) -> (r: Theme)
    ensures
        r == spec_theme(config@),
{
    match get_config_string(config, "theme") {
        Some(t) => {
            if t == "dark".to_owned() {
                Theme::Dark
            } else if t == "light".to_owned() {
                Theme::Light
            } else {
                Theme::System
            }
        },
        None => Theme::System,
    }
}

/// How a line of the log is coloured.
#[derive(Clone, Copy, PartialEq, Eq, Structural, Debug)]
pub enum LineKind {
    /// A warning: yellow.
    Warning,
    /// An error or a critical error: red.
    Error,
    /// Anything else: the usual text colour.
    Plain,
}

/// The colour of a log line: warnings first, then errors.
pub open spec fn spec_line_kind(line: Seq<char>) -> LineKind {
    if contains_text(line, "WARN"@) {
        LineKind::Warning
    } else if contains_text(line, "ERROR"@) || contains_text(line, "CRITICAL"@) {
        LineKind::Error
    } else {
        LineKind::Plain
    }
}

/// The colour of a log line.
pub fn line_kind(line: &str) -> (r: LineKind)
    ensures
        r == spec_line_kind(line@),
{
    if text_contains(line, "WARN") {
        LineKind::Warning
    } else if text_contains(line, "ERROR") || text_contains(line, "CRITICAL") {
        LineKind::Error
    } else {
        LineKind::Plain
    }
}

/// Whether the log is shown with the user's names hidden; it is unless the
/// configuration says otherwise.
pub fn hide_username_from_logs(config: &JsonValue) -> (r: bool)
    ensures
        r == match config@.get("hide_username_from_logs"@) {
            Some(v) => match v.as_bool() {
                Some(b) => b,
                None => true,
            },
            None => true,
        },
{
    match get_config_bool(config, "hide_username_from_logs") {
        Some(b) => b,
        None => true,
    }
}

/// The log as the logs tab shows it: with the user's names hidden when
/// `hide` is set.
pub fn shown_logs(log: &LogBuffer, hide: bool, username: &str, realname: &str, devicename: &str) -> (r: String)
    ensures
        hide ==> r@ == spec_anonymous_logs(log.text(), username@, realname@, devicename@),
        !hide ==> r@ == log.text(),
{
    if hide {
        get_anonymous_logs(log, username, realname, devicename)
    } else {
        get_logs(log)
    }
}

/// The tabs of the main window, in order.
pub open spec fn default_tabs() -> Seq<Seq<char>> {
    seq!["music"@, "sounds"@, "images"@, "rbxm-files"@, "ktx-files"@, "settings"@, "logs"@, "about"@]
}

/// The tabs of `default_tabs`.
pub fn get_default_tabs() -> (r: Vec<String>)
    ensures
        r@.len() == default_tabs().len(),
        forall|i: int| 0 <= i < r@.len() ==> (#[trigger] r@[i])@ == default_tabs()[i],
{
    vec![
        "music".to_owned(),
        "sounds".to_owned(),
        "images".to_owned(),
        "rbxm-files".to_owned(),
        "ktx-files".to_owned(),
        "settings".to_owned(),
        "logs".to_owned(),
        "about".to_owned(),
    ]
}

/// The tab that the number key `key` selects (with Ctrl or Alt held): the
/// tabs are numbered from one.
pub fn tab_for_key(key: u32, tab_count: usize) -> (r: Option<usize>)
    ensures
        1 <= key <= tab_count ==> r == Some((key - 1) as usize),
        !(1 <= key <= tab_count) ==> r is None,
{
    if 1 <= key && (key as u64) <= (tab_count as u64) {
        Some((key - 1) as usize)
    } else {
        None
    }
}

/// Whether the welcome window is shown first: the user has not been
/// welcomed yet.
pub fn needs_welcome(config: &JsonValue) -> (r: bool)
    ensures
        r == !(config@.get("welcomed"@) matches Some(v) && v.as_bool() == Some(true)),
{
    match get_config_bool(config, "welcomed") {
        Some(b) => !b,
        None => true,
    }
}

/// Whether the main window opens after the welcome window: the user was
/// welcomed, or the configuration does not say.
pub fn may_open_main_window(config: &JsonValue) -> (r: bool)
    ensures
        r == !(config@.get("welcomed"@) matches Some(v) && v.as_bool() == Some(false)),
{
    match get_config_bool(config, "welcomed") {
        Some(b) => b,
        None => true,
    }
}

/// Whether the asset lists show their row of buttons above them; they do
/// unless the configuration says otherwise.
pub fn show_toolbar(config: &JsonValue) -> (r: bool)
    ensures
        r == !(config@.get("use_topbar_buttons"@) matches Some(v) && v.as_bool() == Some(false)),
{
    match get_config_bool(config, "use_topbar_buttons") {
        Some(b) => b,
        None => true,
    }
}

/// Whether the first frame starts the check for updates: it has not been
/// started yet and the configuration asks for it.
pub fn update_check_due(started: bool, config: &JsonValue) -> (r: bool)
    ensures
        r == spec_update_check_due(started, config@),
{
    if started {
        return false;
    }
    match get_config_bool(config, "check_for_updates") {
        Some(b) => b,
        None => false,
    }
}

/// Whether the check for updates is due on a frame (see `update_check_due`).
pub open spec fn spec_update_check_due(started: bool, config: JsonView) -> bool {
    !started && (config.get("check_for_updates"@) matches Some(v) && v.as_bool() == Some(true))
}

/// A frame begins: whether it starts the check for updates. The check is
/// then marked as started, whatever the answer.
pub fn begin_update_check(started: &mut bool, config: &JsonValue) -> (due: bool)
    ensures
        *final(started),
        due == spec_update_check_due(*old(started), config@),
{
    let due = update_check_due(*started, config);
    *started = true;
    due
}

/// Whether each of a run of frames starts the check for updates, the
/// configuration being `configs[i]` on frame `i` and `started` saying
/// whether it was started before the first.
pub open spec fn update_checks(started: bool, configs: Seq<JsonView>) -> Seq<bool>
    decreases configs.len(),
{
    if configs.len() == 0 {
        Seq::empty()
    } else {
        seq![spec_update_check_due(started, configs[0])] + update_checks(true, configs.drop_first())
    }
}

/// Over any run of frames the check for updates starts at most once: on the
/// first frame, when it had not started and the configuration then asks for
/// it.
pub proof fn law_update_check_at_most_once(started: bool, configs: Seq<JsonView>)
    ensures
        update_checks(started, configs).len() == configs.len(),
        configs.len() > 0 ==> update_checks(started, configs)[0] == spec_update_check_due(started, configs[0]),
        forall|i: int| 1 <= i < configs.len() ==> !(#[trigger] update_checks(started, configs)[i]),
    decreases configs.len(),
{
    if configs.len() > 0 {
        let rest = configs.drop_first();
        law_update_check_at_most_once(true, rest);
        assert forall|i: int| 1 <= i < configs.len() implies !(#[trigger] update_checks(started, configs)[i]) by {
            assert(update_checks(started, configs)[i] == update_checks(true, rest)[i - 1]);
            assert(!spec_update_check_due(true, rest[0]));
        }
    }
}

/// Where a font with Japanese glyphs may be, before `~` is resolved.
pub open spec fn japanese_font_templates() -> Seq<Seq<char>> {
    seq![
        "C:\\Windows\\Fonts\\msgothic.ttc"@,
        "/usr/share/fonts/noto-cjk/NotoSerifCJK-Regular.ttc"@,
        "~/.local/share/fonts/noto-cjk/NotoSerifCJK-Regular.ttc"@,
        "~/.fonts/noto-cjk/NotoSerifCJK-Regular.ttc"@,
    ]
}

/// The places a font with Japanese glyphs may be, resolved for `username`.
pub fn japanese_font_candidates(username: &str) -> (r: Vec<String>)
    ensures
        r@.len() == japanese_font_templates().len(),
        forall|i: int|
            0 <= i < r@.len() ==> (#[trigger] r@[i])@ == spec_resolve_path(japanese_font_templates()[i], username@),
{
    let templates = vec![
        "C:\\Windows\\Fonts\\msgothic.ttc".to_owned(),
        "/usr/share/fonts/noto-cjk/NotoSerifCJK-Regular.ttc".to_owned(),
        "~/.local/share/fonts/noto-cjk/NotoSerifCJK-Regular.ttc".to_owned(),
        "~/.fonts/noto-cjk/NotoSerifCJK-Regular.ttc".to_owned(),
    ];
    let mut r: Vec<String> = Vec::new();
    let mut i: usize = 0;
    while i < templates.len()
        invariant
            i <= templates@.len(),
            templates@.len() == japanese_font_templates().len(),
            forall|j: int| 0 <= j < templates@.len() ==> (#[trigger] templates@[j])@ == japanese_font_templates()[j],
            r@.len() == i,
            forall|j: int|
                0 <= j < i ==> (#[trigger] r@[j])@ == spec_resolve_path(japanese_font_templates()[j], username@),
        decreases templates@.len() - i,
    {
        r.push(resolve_path(templates[i].as_str(), username));
        i = i + 1;
    }
    r
}

/// The first candidate from `i` on that was found to be a file.
pub open spec fn first_file(is_file: Seq<bool>, i: int) -> Option<int>
    decreases is_file.len() - i,
{
    if i < 0 || i >= is_file.len() {
        None
    } else if is_file[i] {
        Some(i)
    } else {
        first_file(is_file, i + 1)
    }
}

/// The font added for Japanese text: the first of `candidates` that
/// `is_file` (one answer for each, in order) found to be a file.
pub fn detect_japanese_font(candidates: &Vec<String>, is_file: &Vec<bool>) -> (r: Option<String>)
    requires
        is_file@.len() == candidates@.len(),
    ensures
        match first_file(is_file@, 0) {
            Some(i) => r matches Some(p) && p == candidates@[i],
            None => r is None,
        },
{
    let mut i: usize = 0;
    while i < is_file.len()
        invariant
            i <= is_file@.len(),
            is_file@.len() == candidates@.len(),
            first_file(is_file@, 0) == first_file(is_file@, i as int),
        decreases is_file@.len() - i,
    {
        if is_file[i] {
            return Some(candidates[i].clone());
        }
        i = i + 1;
    }
    None
}

/// The text of the link to a dependency: its address without the leading
/// "https://github.com/".
pub fn dependency_label(url: &str) -> (r: String)
    ensures
        r@ == replace_all(url@, "https://github.com/"@, Seq::empty()),
{
    proof {
        reveal_strlit("");
        assert(""@ =~= Seq::<char>::empty());
    }
    replace(url, "https://github.com/", "")
}

/// Whether previews are shown for the tab `tab`: only on the images tab,
/// and only when the configuration turns them on.
pub fn display_image_preview(config: &JsonValue, tab: &String) -> (r: bool)
    ensures
        r == (config@.get("display_image_preview"@) matches Some(v) && v.as_bool() == Some(true) && tab@
            == "images"@),
{
    let enabled = match get_config_bool(config, "display_image_preview") {
        Some(b) => b,
        None => false,
    };
    enabled && *tab == "images".to_owned()
}

/// Turns previews on or off.
pub fn toggle_image_preview(config: &mut JsonValue)
    requires
        old(config)@.is_assignable(),
    ensures
        final(config)@ == old(config)@.set(
            "display_image_preview"@,
            JsonView::Bool(!(old(config)@.get("display_image_preview"@) matches Some(v) && v.as_bool() == Some(true))),
        ),
{
    let enabled = match get_config_bool(config, "display_image_preview") {
        Some(b) => b,
        None => false,
    };
    crate::config::set_config_value(config, "display_image_preview", JsonValue::Bool(!enabled));
}

} // verus!
