//! Translations: which language is used, which messages it gives, and the
//! list of languages offered to the user. Messages come from Fluent bundles.
use vstd::prelude::*;
use std::sync::Arc;
use fluent_bundle::{FluentArgs, FluentResource};
use unic_langid::LanguageIdentifier;
use crate::config::{JsonValue, get_config_string, spec_get_string};

verus! {

#[verifier::external_type_specification]
#[verifier::external_body]
#[verifier::reject_recursive_types(R)]
#[verifier::reject_recursive_types(M)]
pub struct ExFluentBundle<R, M>(fluent_bundle::bundle::FluentBundle<R, M>);

#[verifier::external_type_specification]
#[verifier::external_body]
pub struct ExIntlLangMemoizer(intl_memoizer::IntlLangMemoizer);

#[verifier::external_type_specification]
#[verifier::external_body]
pub struct ExFluentResource(fluent_bundle::FluentResource);

/// Whether Fluent parses `source` without errors (`FluentResource::try_new`).
pub uninterp spec fn ftl_parses(source: Seq<char>) -> bool;

/// Whether `source` parses as a language identifier (`LanguageIdentifier`'s `FromStr`).
pub uninterp spec fn langid_parses(source: Seq<char>) -> bool;

/// The Fluent source that a parsed resource holds (`FluentResource::source`).
pub uninterp spec fn resource_source(resource: FluentResource) -> Seq<char>;

/// The Fluent sources of the resources a bundle holds, in the order they
/// were added.
pub uninterp spec fn bundle_sources(bundle: fluent_bundle::FluentBundle<Arc<FluentResource>>) -> Seq<Seq<char>>;

/// The language tag a bundle was made with, as the text it was parsed from.
pub uninterp spec fn bundle_language(bundle: fluent_bundle::FluentBundle<Arc<FluentResource>>) -> Seq<char>;

/// What Fluent formats for the message `id` with the arguments `args`
/// (name and text, the last of a name counting) in a bundle made for the
/// language tag `language` that holds the resources parsed from `sources`,
/// added in order, each overriding what came before: the message's value,
/// formatted, or nothing when no message `id` with a value stands there.
/// It depends on these values alone.
pub uninterp spec fn ftl_message_text(
    language: Seq<char>,
    sources: Seq<Seq<char>>,
    id: Seq<char>,
    args: Seq<(Seq<char>, Seq<char>)>,
) -> Option<Seq<char>>;

/// Calls `FluentResource::try_new`; the contract claims that it succeeds
/// exactly when the source parses, as the name `ftl_parses` says, and that
/// the resource then holds that source.
#[verifier::external_body]
fn parse_resource(source: String) -> (r: Option<FluentResource>)
    ensures
        r is Some <==> ftl_parses(source@),
        r matches Some(resource) ==> resource_source(resource) == source@,
{
    FluentResource::try_new(source).ok()
}

/// Calls `FluentBundle::new` with the single locale that `language` parses
/// to (unic_langid's `FromStr`). Claimed: a bundle comes back exactly when
/// the tag parses, as `langid_parses` says, and it is made for that tag and
/// holds no resource yet.
#[verifier::external_body]
fn new_bundle(language: &str) -> (r: Option<fluent_bundle::FluentBundle<Arc<FluentResource>>>)
    ensures
        r is Some <==> langid_parses(language@),
        r matches Some(bundle) ==> bundle_sources(bundle) == Seq::<Seq<char>>::empty() && bundle_language(bundle)
            == language@,
{
    let lang_id = language.parse::<LanguageIdentifier>().ok()?;
    Some(fluent_bundle::FluentBundle::new(vec![lang_id]))
}

/// Calls `FluentBundle::add_resource_overriding`, which keeps the resource
/// after those already held and lets its messages and terms replace any of
/// the same id. Claimed: the bundle then holds the resource's source after
/// the others, and is still made for the same language.
#[verifier::external_body]
fn add_resource(bundle: &mut fluent_bundle::FluentBundle<Arc<FluentResource>>, resource: FluentResource)
    ensures
        bundle_sources(*final(bundle)) == bundle_sources(*old(bundle)).push(resource_source(resource)),
        bundle_language(*final(bundle)) == bundle_language(*old(bundle)),
{
    bundle.add_resource_overriding(Arc::new(resource))
}

/// The arguments of a message as names and texts; none when no arguments
/// are given.
pub open spec fn args_view(args: Option<&Vec<(String, String)>>) -> Seq<(Seq<char>, Seq<char>)> {
    match args {
        Some(pairs) => pairs@.map_values(|p: (String, String)| (p.0@, p.1@)),
        None => Seq::empty(),
    }
}

/// What the bundle formats for the message `id` with `args`, as
/// `ftl_message_text` says.
pub open spec fn bundle_message(
    bundle: fluent_bundle::FluentBundle<Arc<FluentResource>>,
    id: Seq<char>,
    args: Seq<(Seq<char>, Seq<char>)>,
) -> Option<Seq<char>> {
    ftl_message_text(bundle_language(bundle), bundle_sources(bundle), id, args)
}

/// Calls `FluentBundle::get_message`, `FluentMessage::value` and
/// `FluentBundle::format_pattern`, with the arguments set as string values
/// in a `FluentArgs`. The three calls stand together because the pattern
/// handed from the second to the third is a type of fluent-syntax, which
/// this crate does not name. Claimed: what comes back is `ftl_message_text`
/// of the bundle's language and sources, the id and the arguments; no
/// arguments format as an empty set of them, which is how Fluent's resolver
/// treats a missing variable either way.
#[verifier::external_body]
fn format_message(
    bundle: &fluent_bundle::FluentBundle<Arc<FluentResource>>,
    id: &str,
    args: Option<&Vec<(String, String)>>,
) -> (r: Option<String>)
    ensures
        match r {
            Some(text) => ftl_message_text(bundle_language(*bundle), bundle_sources(*bundle), id@, args_view(args))
                == Some(text@),
            None => ftl_message_text(bundle_language(*bundle), bundle_sources(*bundle), id@, args_view(args)) is None,
        },
{
    let pattern = bundle.get_message(id)?.value()?;
    let fluent_args = args.map(|pairs| pairs.iter().map(|(k, v)| (k.as_str(), v.as_str())).collect::<FluentArgs>());
    let mut errors = vec![];
    Some(bundle.format_pattern(pattern, fluent_args.as_ref(), &mut errors).to_string())
}

/// The text shown for a message: its formatted value when there is one,
/// its id otherwise.
pub fn message_or_id(formatted: Option<String>, id: &str) -> (r: String)
    ensures
        match formatted {
            Some(text) => r == text,
            None => r@ == id@,
        },
{
    match formatted {
        Some(text) => text,
        None => id.to_owned(),
    }
}

/// The text of the message `id` in `locale`, formatted with `args`, or
/// `id` when the locale has no value for it.
pub fn get_message(
    locale: &fluent_bundle::FluentBundle<Arc<FluentResource>>,
    id: &str,
    args: Option<&Vec<(String, String)>>,
) -> (r: String)
    ensures
        r@ == match bundle_message(*locale, id@, args_view(args)) {
            Some(text) => text,
            None => id@,
        },
{
    message_or_id(format_message(locale, id, args), id)
}

/// The language used when nothing else names one.
pub open spec fn default_language() -> Seq<char> {
    seq!['e', 'n', '-', 'G', 'B']
}

fn default_language_text() -> (r: String)
    ensures
        r@ == default_language(),
{
    proof {
        reveal_strlit("en-GB");
    }
    "en-GB".to_owned()
}

/// Name of the configuration member that holds the chosen language.
pub open spec fn language_key() -> Seq<char> {
    seq!['l', 'a', 'n', 'g', 'u', 'a', 'g', 'e']
}

/// The language asked for, else the configured one, else the system's, else
/// British English.
pub open spec fn chosen_language(
    lang: Option<Seq<char>>,
    config: crate::config::JsonView,
    system_locale: Option<Seq<char>>,
) -> Seq<char> {
    match lang {
        Some(l) => l,
        None => match spec_get_string(config, language_key()) {
            Some(l) => l,
            None => match system_locale {
                Some(l) => l,
                None => default_language(),
            },
        },
    }
}

/// The language to use: `lang` when given, else the configured language,
/// else the system's locale, else British English.
pub fn choose_language(lang: Option<&str>, config: &JsonValue, system_locale: Option<String>) -> (r: String)
    ensures
        r@ == chosen_language(
            match lang {
                Some(l) => Some(l@),
                None => None,
            },
            config@,
            match system_locale {
                Some(l) => Some(l@),
                None => None,
            },
        ),
{
    proof {
        reveal_strlit("language");
        assert("language"@ =~= language_key());
    }
    match lang {
        Some(l) => l.to_owned(),
        None => match get_config_string(config, "language") {
            Some(l) => l,
            None => match system_locale {
                Some(l) => l,
                None => default_language_text(),
            },
        },
    }
}

/// The Fluent source of `locale` in `table`, if the table has it.
pub open spec fn table_lookup(table: Seq<(Seq<char>, Seq<char>)>, locale: Seq<char>) -> Option<Seq<char>>
    decreases table.len(),
{
    if table.len() == 0 {
        None
    } else if table[0].0 == locale {
        Some(table[0].1)
    } else {
        table_lookup(table.drop_first(), locale)
    }
}

/// The table of available translations as mathematical values.
pub open spec fn table_view(table: Seq<(String, String)>) -> Seq<(Seq<char>, Seq<char>)> {
    table.map_values(|e: (String, String)| (e.0@, e.1@))
}

/// The Fluent source for `locale`: its own, or British English's when the
/// table lacks it.
pub open spec fn resources_for(table: Seq<(Seq<char>, Seq<char>)>, locale: Seq<char>) -> Option<Seq<char>> {
    match table_lookup(table, locale) {
        Some(source) => Some(source),
        None => table_lookup(table, default_language()),
    }
}

fn lookup(table: &Vec<(String, String)>, locale: &String) -> (r: Option<String>)
    ensures
        match r {
            Some(s) => table_lookup(table_view(table@), locale@) == Some(s@),
            None => table_lookup(table_view(table@), locale@) is None,
        },
{
    let ghost t = table_view(table@);
    let mut i: usize = 0;
    assert(t.skip(0) =~= t);
    while i < table.len()
        invariant
            i <= table@.len(),
            t == table_view(table@),
            table_lookup(t, locale@) == table_lookup(t.skip(i as int), locale@),
        decreases table@.len() - i,
    {
        assert(t.skip(i as int)[0] == (table@[i as int].0@, table@[i as int].1@));
        assert(t.skip(i as int).drop_first() =~= t.skip(i + 1));
        if table[i].0 == *locale {
            return Some(table[i].1.clone());
        }
        i = i + 1;
    }
    None
}

/// The Fluent source for `locale`, falling back to British English.
pub fn locale_resources(table: &Vec<(String, String)>, locale: &String) -> (r: Option<String>)
    ensures
        match r {
            Some(s) => resources_for(table_view(table@), locale@) == Some(s@),
            None => resources_for(table_view(table@), locale@) is None,
        },
{
    match lookup(table, locale) {
        Some(source) => Some(source),
        None => lookup(table, &default_language_text()),
    }
}

/// Whether a bundle can be made for `locale` from `table`: its resources
/// parse, and either its name or British English parses as a language
/// identifier.
pub open spec fn bundle_builds(table: Seq<(Seq<char>, Seq<char>)>, locale: Seq<char>) -> bool {
    &&& resources_for(table, locale) matches Some(source)
    &&& ftl_parses(source)
    &&& (langid_parses(locale) || langid_parses(default_language()))
}

/// The language tag of the bundle for `locale`: its own name when that
/// parses, British English otherwise.
pub open spec fn bundle_tag(locale: Seq<char>) -> Seq<char> {
    if langid_parses(locale) {
        locale
    } else {
        default_language()
    }
}

/// The bundle for `locale` is made for `bundle_tag(locale)` and holds the
/// locale's resources (see `resources_for`) and nothing else.
pub open spec fn is_locale_bundle(
    bundle: fluent_bundle::FluentBundle<Arc<FluentResource>>,
    table: Seq<(Seq<char>, Seq<char>)>,
    locale: Seq<char>,
) -> bool {
    &&& bundle_language(bundle) == bundle_tag(locale)
    &&& bundle_sources(bundle) == seq![resources_for(table, locale).unwrap()]
}

/// The language chosen from the arguments of `get_locale`.
pub open spec fn requested_language(
    lang: Option<&str>,
    config: crate::config::JsonView,
    system_locale: Option<String>,
) -> Seq<char> {
    chosen_language(
        match lang {
            Some(l) => Some(l@),
            None => None,
        },
        config,
        match system_locale {
            Some(l) => Some(l@),
            None => None,
        },
    )
}

/// The Fluent bundle for the chosen language (see `chosen_language`), from
/// the table of available translations; British English's resources when
/// the table lacks the language, and its identifier when the language's name
/// does not parse. `None` when the resources do not parse or no identifier
/// does.
pub fn get_locale(
    lang: Option<&str>,
    config: &JsonValue,
    system_locale: Option<String>,
    table: &Vec<(String, String)>,
) -> (r: Option<fluent_bundle::FluentBundle<Arc<FluentResource>>>)
    requires
        resources_for(table_view(table@), requested_language(lang, config@, system_locale)) is Some,
    ensures
        r is Some <==> bundle_builds(table_view(table@), requested_language(lang, config@, system_locale)),
        r matches Some(bundle) ==> is_locale_bundle(
            bundle,
            table_view(table@),
            requested_language(lang, config@, system_locale),
        ),
{
    let locale = choose_language(lang, config, system_locale);
    let source = match locale_resources(table, &locale) {
        Some(source) => source,
        None => {
            return None;
        },
    };
    let ghost parsed = source@;
    let resource = match parse_resource(source) {
        Some(resource) => resource,
        None => {
            return None;
        },
    };
    let mut bundle = match new_bundle(locale.as_str()) {
        Some(bundle) => bundle,
        None => match new_bundle(default_language_text().as_str()) {
            Some(bundle) => bundle,
            None => {
                return None;
            },
        },
    };
    add_resource(&mut bundle, resource);
    assert(Seq::<Seq<char>>::empty().push(parsed) =~= seq![parsed]);
    Some(bundle)
}

/// Position of the first language named `lang`, from `start` on.
pub open spec fn language_index_from(langs: Seq<Seq<char>>, lang: Seq<char>, start: int) -> Option<int>
    decreases langs.len() - start,
{
    if start < 0 || start >= langs.len() {
        None
    } else if langs[start] == lang {
        Some(start)
    } else {
        language_index_from(langs, lang, start + 1)
    }
}

/// Position of the first language named `lang`.
pub open spec fn language_index(langs: Seq<Seq<char>>, lang: Seq<char>) -> Option<int> {
    language_index_from(langs, lang, 0)
}

proof fn lemma_language_index_from(langs: Seq<Seq<char>>, lang: Seq<char>, start: int)
    requires
        0 <= start,
    ensures
        match language_index_from(langs, lang, start) {
            Some(i) => start <= i < langs.len() && langs[i] == lang,
            None => forall|j: int| start <= j < langs.len() ==> langs[j] != lang,
        },
    decreases langs.len() - start,
{
    if start < langs.len() && langs[start] != lang {
        lemma_language_index_from(langs, lang, start + 1);
    }
}

/// The languages with `default` moved to the front when it is among them.
pub open spec fn ordered_languages(langs: Seq<Seq<char>>, default: Seq<char>) -> Seq<Seq<char>> {
    match language_index(langs, default) {
        Some(p) => seq![langs[p]] + langs.remove(p),
        None => langs,
    }
}

/// The views of a list of strings.
pub open spec fn string_views(v: Seq<String>) -> Seq<Seq<char>> {
    v.map_values(|s: String| s@)
}

/// Moves `default` to the front of the language list when it is there.
pub fn order_languages(languages: Vec<String>, default: &String) -> (r: Vec<String>)
    ensures
        string_views(r@) == ordered_languages(string_views(languages@), default@),
{
    let ghost langs = string_views(languages@);
    let mut i: usize = 0;
    while i < languages.len()
        invariant
            i <= languages@.len(),
            langs == string_views(languages@),
            language_index(langs, default@) == language_index_from(langs, default@, i as int),
        decreases languages@.len() - i,
    {
        if languages[i] == *default {
            let mut languages = languages;
            assert(language_index(langs, default@) == language_index_from(langs, default@, i as int));
            assert(language_index(langs, default@) == Some(i as int));
            let default_lang = languages.remove(i);
            languages.insert(0, default_lang);
            assert(string_views(languages@) =~= seq![langs[i as int]] + langs.remove(i as int));
            return languages;
        }
        i = i + 1;
    }
    languages
}

/// Every language of the list has resources in the table.
pub open spec fn all_have_resources(table: Seq<(Seq<char>, Seq<char>)>, langs: Seq<Seq<char>>) -> bool {
    forall|i: int| 0 <= i < langs.len() ==> (#[trigger] resources_for(table, langs[i])) is Some
}

/// A bundle can be made for each language of the list.
pub open spec fn all_bundles_build(table: Seq<(Seq<char>, Seq<char>)>, langs: Seq<Seq<char>>) -> bool {
    forall|i: int| 0 <= i < langs.len() ==> #[trigger] bundle_builds(table, langs[i])
}

/// The name a language gives itself: the message "language-name" of its
/// bundle (see `get_locale`), or that id when the bundle has no such message.
pub open spec fn language_name(table: Seq<(Seq<char>, Seq<char>)>, lang: Seq<char>) -> Seq<char> {
    match ftl_message_text(bundle_tag(lang), seq![resources_for(table, lang).unwrap()], "language-name"@, seq![]) {
        Some(text) => text,
        None => "language-name"@,
    }
}

/// The languages offered to the user, the system's first, each with its own
/// name for itself (the message "language-name" of its bundle). `None` when
/// the bundle of a language cannot be made.
pub fn init_language_list(
    locales: Vec<String>,
    config: &JsonValue,
    system_locale: Option<String>,
    table: &Vec<(String, String)>,
) -> (r: Option<Vec<(String, String)>>)
    requires
        all_have_resources(table_view(table@), string_views(locales@)),
    ensures
        ({
            let default = match system_locale {
                Some(l) => l@,
                None => default_language(),
            };
            let ordered = ordered_languages(string_views(locales@), default);
            &&& r is Some <==> all_bundles_build(table_view(table@), ordered)
            &&& r matches Some(list) ==> list@.len() == ordered.len() && forall|i: int|
                0 <= i < list@.len() ==> (#[trigger] list@[i]).0@ == ordered[i] && list@[i].1@ == language_name(
                    table_view(table@),
                    ordered[i],
                )
        }),
{
    let default = match &system_locale {
        Some(l) => l.clone(),
        None => default_language_text(),
    };
    let ghost all = string_views(locales@);
    let languages = order_languages(locales, &default);
    let ghost ordered = string_views(languages@);
    let ghost expected_default = match system_locale {
        Some(l) => l@,
        None => default_language(),
    };
    assert(default@ == expected_default);
    assert(ordered == ordered_languages(all, expected_default));
    assert forall|i: int| 0 <= i < ordered.len() implies (#[trigger] resources_for(table_view(table@), ordered[i])) is Some by {
        match language_index(all, default@) {
            Some(p) => {
                lemma_language_index_from(all, default@, 0);
                assert(0 <= p < all.len() && all[p] == default@);
                assert(ordered =~= seq![all[p]] + all.remove(p));
                if i == 0 {
                    assert(ordered[i] == all[p]);
                } else if i - 1 < p {
                    assert(ordered[i] == all[i - 1]);
                } else {
                    assert(ordered[i] == all[i]);
                }
            },
            None => {
                assert(ordered[i] == all[i]);
            },
        }
    }
    let mut list: Vec<(String, String)> = Vec::new();
    let mut i: usize = 0;
    while i < languages.len()
        invariant
            i <= languages@.len(),
            ordered == string_views(languages@),
            ordered == ordered_languages(all, expected_default),
            all == string_views(locales@),
            expected_default == match system_locale {
                Some(l) => l@,
                None => default_language(),
            },
            forall|j: int| 0 <= j < ordered.len() ==> (#[trigger] resources_for(table_view(table@), ordered[j])) is Some,
            forall|j: int| 0 <= j < i ==> #[trigger] bundle_builds(table_view(table@), ordered[j]),
            list@.len() == i,
            forall|j: int|
                0 <= j < i ==> (#[trigger] list@[j]).0@ == ordered[j] && list@[j].1@ == language_name(
                    table_view(table@),
                    ordered[j],
                ),
        decreases languages@.len() - i,
    {
        let lang = &languages[i];
        assert(ordered[i as int] == lang@);
        assert(resources_for(table_view(table@), ordered[i as int]) is Some);
        let bundle = match get_locale(Some(lang.as_str()), config, None, table) {
            Some(bundle) => bundle,
            None => {
                assert(!bundle_builds(table_view(table@), ordered[i as int]));
                return None;
            },
        };
        let name = get_message(&bundle, "language-name", None);
        list.push((lang.clone(), name));
        i = i + 1;
    }
    Some(list)
}

/// The languages offered to the user, with their names.
pub fn get_language_list(list: &Vec<(String, String)>) -> (r: Vec<(String, String)>)
    ensures
        r@.len() == list@.len(),
        forall|i: int| 0 <= i < r@.len() ==> (#[trigger] r@[i]).0 == list@[i].0 && r@[i].1 == list@[i].1,
{
    let mut r: Vec<(String, String)> = Vec::new();
    let mut i: usize = 0;
    while i < list.len()
        invariant
            i <= list@.len(),
            r@.len() == i,
            forall|j: int| 0 <= j < i ==> (#[trigger] r@[j]).0 == list@[j].0 && r@[j].1 == list@[j].1,
        decreases list@.len() - i,
    {
        r.push((list[i].0.clone(), list[i].1.clone()));
        i = i + 1;
    }
    r
}

} // verus!
