use roextract::cli::{cli_action, missing_category_text, Category, CliAction};

#[test]
fn category_names() {
    assert_eq!(Category::Music.to_string(), "Music");
    assert_eq!(Category::Ktx.to_string(), "Ktx");
    assert_eq!(Category::Rbxm.tab(), "rbxm");
    assert_eq!(Category::Sounds.tab(), "sounds");
}

#[test]
fn list_mode_needs_a_category() {
    assert_eq!(cli_action(true, None, None, "/c"), CliAction::MissingCategory);
    assert_eq!(
        missing_category_text(),
        "Category argument required for list mode! --help for details."
    );
}

#[test]
fn list_mode_picks_the_directory() {
    assert_eq!(
        cli_action(true, Some(Category::Music), Some("x".to_string()), "/c"),
        CliAction::List { directory: "/c/sounds".to_string(), tab: "music".to_string() }
    );
    assert_eq!(
        cli_action(true, Some(Category::Images), None, "/c"),
        CliAction::List { directory: "/c/http".to_string(), tab: "images".to_string() }
    );
}

#[test]
fn extract_prints_the_asset_and_nothing_opens_the_window() {
    assert_eq!(cli_action(false, Some(Category::Music), Some("abc".to_string()), "/c"), CliAction::PrintAsset("abc".to_string()));
    assert_eq!(cli_action(false, None, None, ""), CliAction::RunGui);
}
