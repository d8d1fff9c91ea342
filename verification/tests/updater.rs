use roextract::updater::{clean_version_number, development_build_tag, update_available};

#[test]
fn clean_version_keeps_digits_and_dots() {
    assert_eq!(clean_version_number("v1.0.1"), "1.0.1");
    assert_eq!(clean_version_number("1.0.1-beta"), "1.0.1");
    assert_eq!(clean_version_number("Version 2.3"), "2.3");
}

#[test]
fn update_offered_only_when_versions_differ() {
    assert!(!update_available("v1.0.1", "1.0.1"));
    assert!(update_available("v1.0.2", "1.0.1"));
    assert!(update_available("v1.0.0", "1.0.1"));
    assert!(!update_available("release-1.0.1", "1.0.1"));
}

#[test]
fn cleaned_tag_offers_no_update_against_itself() {
    let cleaned = clean_version_number("v3.4.5-rc");
    assert_eq!(clean_version_number(&cleaned), cleaned);
    assert!(!update_available(&cleaned, "v3.4.5-rc"));
}

#[test]
fn development_builds_are_named_by_tag() {
    assert_eq!(development_build_tag("dev-build-42"), Some("dev-build-42".to_string()));
    assert_eq!(development_build_tag("v1.0.1"), None);
}
