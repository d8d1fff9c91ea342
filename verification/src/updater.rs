//! Whether a release of the program is newer than the running one.
use vstd::prelude::*;
use crate::text::{contains_text, keep_version_chars, lemma_version_chars_push, text_contains, version_chars};

verus! {

/// The digits and dots of a version tag, e.g. "1.0.1" for "v1.0.1".
pub fn clean_version_number(version: &str) -> (r: String)
    ensures
        r@ == version_chars(version@),
        r@ == version@.filter(|c: char| ('0' <= c && c <= '9') || c == '.'),
{
    keep_version_chars(version)
}

/// An update is offered when the latest release's tag and the running
/// version differ in their digits and dots.
pub fn update_available(tag_name: &str, current_version: &str) -> (r: bool)
    ensures
        r == (version_chars(tag_name@) != version_chars(current_version@)),
        r == (tag_name@.filter(|c: char| ('0' <= c && c <= '9') || c == '.') != current_version@.filter(
            |c: char| ('0' <= c && c <= '9') || c == '.',
        )),
{
    clean_version_number(tag_name) != clean_version_number(current_version)
}

/// The tag to download for a development build: the tag itself when it
/// names one, nothing for a regular release.
pub fn development_build_tag(tag_name: &str) -> (r: Option<String>)
    ensures
        contains_text(tag_name@, "dev-build"@) ==> (r matches Some(t) && t@ == tag_name@),
        !contains_text(tag_name@, "dev-build"@) ==> r is None,
{
    if text_contains(tag_name, "dev-build") {
        Some(tag_name.to_owned())
    } else {
        None
    }
}

/// Cleaning a version number that was already cleaned changes nothing: a
/// release tagged with the cleaned running version offers no update.
pub proof fn law_clean_version_idempotent(version: Seq<char>)
    ensures
        version_chars(version_chars(version)) == version_chars(version),
    decreases version.len(),
{
    if version.len() > 0 {
        let init = version.drop_last();
        law_clean_version_idempotent(init);
        assert(init.push(version.last()) =~= version);
        lemma_version_chars_push(init, version.last());
        lemma_version_chars_push(version_chars(init), version.last());
    } else {
        reveal_with_fuel(Seq::<_>::filter, 1);
    }
}

} // verus!
