//! Localization bundles built from Fluent sources: the bundle is made for
//! the requested locale, without isolation marks, falls back to `en-GB` as
//! its locale when the requested locale has no resources, and then takes
//! each source in order; a source that does not parse, or that defines a
//! message or term again, stops the building.

use vstd::prelude::*;
use fluent_bundle::FluentResource;
use unic_langid::LanguageIdentifier;
use crate::names::views;

verus! {

#[verifier::external_type_specification]
#[verifier::external_body]
pub struct ExFluentResource(fluent_bundle::FluentResource);

/// A concurrent Fluent bundle of resources. Its memoizer type is not
/// exported by `fluent_bundle`, so the bundle is held here rather than
/// declared; what it holds is named by `bundle_sources`,
/// `bundle_locale_texts`, `bundle_formatting_locale` and `bundle_isolating`.
#[verifier::external_body]
pub struct LocalizationBundle {
    pub bundle: fluent_bundle::concurrent::FluentBundle<FluentResource>,
}

/// Whether a Fluent source parses without error (`FluentResource::try_new`).
pub uninterp spec fn ftl_parses(source: Seq<char>) -> bool;

/// The texts of the parser's errors for a Fluent source, in order.
pub uninterp spec fn ftl_parse_errors(source: Seq<char>) -> Seq<Seq<char>>;

/// The messages and terms of a Fluent source, in order: each one's
/// identifier, and whether it is a term.
pub uninterp spec fn ftl_entries(source: Seq<char>) -> Seq<(Seq<char>, bool)>;

/// The source text that a resource was parsed from (`FluentResource::source`).
pub uninterp spec fn resource_source(resource: FluentResource) -> Seq<char>;

/// Whether a text is a language identifier (`LanguageIdentifier::from_str`).
pub uninterp spec fn locale_parses(text: Seq<char>) -> bool;

/// The canonical text (`to_string`) of the language identifier read from a
/// text.
pub uninterp spec fn canonical_locale(text: Seq<char>) -> Seq<char>;

/// The sources of the resources of a bundle, in the order they were added.
pub uninterp spec fn bundle_sources(bundle: LocalizationBundle) -> Seq<Seq<char>>;

/// The texts of a bundle's locales (its `locales` field).
pub uninterp spec fn bundle_locale_texts(bundle: LocalizationBundle) -> Seq<Seq<char>>;

/// The text of the locale that a bundle formats plurals and numbers for
/// (the locale its memoizer was made with).
pub uninterp spec fn bundle_formatting_locale(bundle: LocalizationBundle) -> Seq<char>;

/// Whether a bundle wraps placeables in isolation marks.
pub uninterp spec fn bundle_isolating(bundle: LocalizationBundle) -> bool;

/// `FluentResource::try_new`: the resource parsed from `source`, or the
/// texts of the parser's errors when it does not parse.
#[verifier::external_body]
fn parse_ftl(source: String) -> (r: Result<FluentResource, Vec<String>>)
    ensures
        r is Ok <==> ftl_parses(source@),
        r matches Ok(res) ==> resource_source(res) == source@,
        r matches Err(errors) ==> views(errors@) == ftl_parse_errors(source@),
{
    match FluentResource::try_new(source) {
        Ok(resource) => Ok(resource),
        Err((_, errors)) => Err(errors.iter().map(ToString::to_string).collect()),
    }
}

/// `FluentBundle::new_concurrent` with the one locale read from `locale`
/// (`LanguageIdentifier::from_str`): a bundle without resources, whose
/// locales and formatting locale are that locale, and which isolates
/// placeables. Nothing when the text is not a language identifier.
#[verifier::external_body]
fn new_bundle(locale: &str) -> (r: Option<LocalizationBundle>)
    ensures
        r is Some <==> locale_parses(locale@),
        r matches Some(b) ==> bundle_sources(b).len() == 0
            && bundle_locale_texts(b) == seq![canonical_locale(locale@)]
            && bundle_formatting_locale(b) == canonical_locale(locale@)
            && bundle_isolating(b),
{
    match locale.parse::<LanguageIdentifier>() {
        Ok(id) => Some(LocalizationBundle { bundle: fluent_bundle::concurrent::FluentBundle::new_concurrent(vec![id]) }),
        Err(_) => None,
    }
}

/// `FluentBundle::set_use_isolating(false)`: placeables are no longer
/// wrapped in isolation marks; nothing else changes.
#[verifier::external_body]
fn disable_isolating(bundle: &mut LocalizationBundle)
    ensures
        !bundle_isolating(*final(bundle)),
        bundle_sources(*final(bundle)) == bundle_sources(*old(bundle)),
        bundle_locale_texts(*final(bundle)) == bundle_locale_texts(*old(bundle)),
        bundle_formatting_locale(*final(bundle)) == bundle_formatting_locale(*old(bundle)),
{
    bundle.bundle.set_use_isolating(false);
}

/// Replaces the bundle's locales by the one read from `locale`, as a write
/// of the `locales` field does; the formatting locale, the resources and
/// the isolation stay. False, and nothing changed, when the text is not a
/// language identifier.
#[verifier::external_body]
fn set_locales(bundle: &mut LocalizationBundle, locale: &str) -> (r: bool)
    ensures
        r <==> locale_parses(locale@),
        r ==> bundle_locale_texts(*final(bundle)) == seq![canonical_locale(locale@)],
        !r ==> bundle_locale_texts(*final(bundle)) == bundle_locale_texts(*old(bundle)),
        bundle_sources(*final(bundle)) == bundle_sources(*old(bundle)),
        bundle_formatting_locale(*final(bundle)) == bundle_formatting_locale(*old(bundle)),
        bundle_isolating(*final(bundle)) == bundle_isolating(*old(bundle)),
{
    match locale.parse::<LanguageIdentifier>() {
        Ok(id) => {
            bundle.bundle.locales = vec![id];
            true
        }
        Err(_) => false,
    }
}

/// The identifiers that a bundle of these sources holds.
pub open spec fn known_ids(sources: Seq<Seq<char>>) -> Set<Seq<char>>
    decreases sources.len(),
{
    if sources.len() == 0 {
        Set::empty()
    } else {
        known_ids(sources.drop_last()).union(ftl_entries(sources.last()).map_values(|e: (Seq<char>, bool)| e.0).to_set())
    }
}

/// The error text of an entry that overrides an existing one.
pub open spec fn override_text(entry: (Seq<char>, bool)) -> Seq<char> {
    "Attempt to override an existing "@ + (if entry.1 { "term"@ } else { "message"@ }) + ": \""@ + entry.0 + "\"."@
}

/// The overriding errors of adding `entries` to a bundle that already holds
/// the identifiers `known`, in order: an entry whose identifier is known,
/// from before or from earlier in `entries`, gives an error.
pub open spec fn clash_texts(known: Set<Seq<char>>, entries: Seq<(Seq<char>, bool)>) -> Seq<Seq<char>>
    decreases entries.len(),
{
    if entries.len() == 0 {
        Seq::empty()
    } else if known.contains(entries[0].0) {
        seq![override_text(entries[0])] + clash_texts(known, entries.drop_first())
    } else {
        clash_texts(known.insert(entries[0].0), entries.drop_first())
    }
}

/// `FluentBundle::add_resource`: the resource is added in any case; the
/// texts of the overriding errors come back, one per message or term whose
/// identifier is already defined, by an earlier resource or earlier in the
/// same one. The locales and the isolation stay.
#[verifier::external_body]
fn add_resource(bundle: &mut LocalizationBundle, resource: FluentResource) -> (r: Result<(), Vec<String>>)
    ensures
        bundle_sources(*final(bundle)) == bundle_sources(*old(bundle)).push(resource_source(resource)),
        r is Ok <==> clash_texts(known_ids(bundle_sources(*old(bundle))), ftl_entries(resource_source(resource))).len() == 0,
        r matches Err(errors) ==> views(errors@)
            == clash_texts(known_ids(bundle_sources(*old(bundle))), ftl_entries(resource_source(resource))),
        bundle_locale_texts(*final(bundle)) == bundle_locale_texts(*old(bundle)),
        bundle_formatting_locale(*final(bundle)) == bundle_formatting_locale(*old(bundle)),
        bundle_isolating(*final(bundle)) == bundle_isolating(*old(bundle)),
{
    bundle.bundle.add_resource(resource).map_err(|errors| errors.iter().map(ToString::to_string).collect())
}

/// The last of some error texts, or nothing when there are none.
pub open spec fn last_text(texts: Seq<Seq<char>>) -> Seq<char> {
    if texts.len() == 0 {
        Seq::empty()
    } else {
        texts.last()
    }
}

fn last_or_empty(errors: Vec<String>) -> (r: String)
    ensures
        r@ == last_text(views(errors@)),
{
    let mut errors = errors;
    match errors.pop() {
        Some(m) => m,
        None => String::new(),
    }
}

/// The error of a source that does not parse: the text of the last of the
/// parser's errors.
pub struct ParseError {
    pub message: String,
}

/// Parses a Fluent source into a resource.
pub fn load_resource(source: String) -> (r: Result<FluentResource, ParseError>)
    ensures
        r is Ok <==> ftl_parses(source@),
        r matches Ok(res) ==> resource_source(res) == source@,
        r matches Err(e) ==> e.message@ == last_text(ftl_parse_errors(source@)),
{
    match parse_ftl(source) {
        Ok(resource) => Ok(resource),
        Err(errors) => Err(ParseError { message: last_or_empty(errors) }),
    }
}

/// Why a bundle could not be built.
pub enum BundleError {
    /// A locale is not a language identifier.
    InvalidLocale,
    /// The source at `index` does not parse; the last parser error.
    Parse { index: usize, message: String },
    /// The source at `index` defines a message or term again; the last
    /// overriding error.
    Overriding { index: usize, message: String },
}

/// The overriding errors of the source at `i` after the ones before it.
pub open spec fn clashes_at(sources: Seq<Seq<char>>, i: int) -> Seq<Seq<char>> {
    clash_texts(known_ids(sources.take(i)), ftl_entries(sources[i]))
}

/// The source at `i` is accepted after the ones before it: it parses and
/// its identifiers are new.
pub open spec fn source_accepted(sources: Seq<Seq<char>>, i: int) -> bool {
    ftl_parses(sources[i]) && clashes_at(sources, i).len() == 0
}

/// The locales that a bundle ends with: the requested one, or the fallback
/// `en-GB` when the requested locale has no resources.
pub open spec fn bundle_locale(requested: Seq<char>, locale_exists: bool) -> Seq<char> {
    if locale_exists {
        requested
    } else {
        "en-GB"@
    }
}

/// Builds the bundle of the `requested` locale from the Fluent sources, in
/// order, without isolation marks; when the requested locale has no
/// resources (`locale_exists` is false) the bundle's locale becomes `en-GB`
/// while it keeps formatting for the requested one.
pub fn build_bundle(requested: &str, locale_exists: bool, sources: Vec<String>) -> (r: Result<LocalizationBundle, BundleError>)
    ensures
        r matches Err(BundleError::InvalidLocale) <==> !locale_parses(requested@)
            || (!locale_exists && !locale_parses("en-GB"@)),
        r matches Ok(b) ==> bundle_locale_texts(b) == seq![canonical_locale(bundle_locale(requested@, locale_exists))]
            && bundle_formatting_locale(b) == canonical_locale(requested@)
            && !bundle_isolating(b),
        !(r matches Err(BundleError::InvalidLocale)) ==> match r {
            Ok(b) => (forall|i: int| 0 <= i < sources@.len() ==> #[trigger] source_accepted(views(sources@), i))
                && bundle_sources(b) == views(sources@),
            Err(BundleError::Parse { index, message }) => index < sources@.len()
                && (forall|i: int| 0 <= i < index ==> #[trigger] source_accepted(views(sources@), i))
                && !ftl_parses(sources@[index as int]@)
                && message@ == last_text(ftl_parse_errors(sources@[index as int]@)),
            Err(BundleError::Overriding { index, message }) => index < sources@.len()
                && (forall|i: int| 0 <= i < index ==> #[trigger] source_accepted(views(sources@), i))
                && ftl_parses(sources@[index as int]@)
                && clashes_at(views(sources@), index as int).len() > 0
                && message@ == last_text(clashes_at(views(sources@), index as int)),
            Err(BundleError::InvalidLocale) => false,
        },
{
    let mut bundle = match new_bundle(requested) {
        Some(b) => b,
        None => return Err(BundleError::InvalidLocale),
    };
    disable_isolating(&mut bundle);
    if !locale_exists {
        proof {
            reveal_strlit("en-GB");
        }
        if !set_locales(&mut bundle, "en-GB") {
            return Err(BundleError::InvalidLocale);
        }
    }
    let ghost locales = bundle_locale_texts(bundle);
    let ghost vs = views(sources@);
    let mut i: usize = 0;
    assert(vs.take(0) =~= Seq::<Seq<char>>::empty());
    while i < sources.len()
        invariant
            locale_parses(requested@),
            locale_exists || locale_parses("en-GB"@),
            i <= sources@.len(),
            vs == views(sources@),
            bundle_sources(bundle) == vs.take(i as int),
            bundle_locale_texts(bundle) == locales,
            locales == seq![canonical_locale(bundle_locale(requested@, locale_exists))],
            bundle_formatting_locale(bundle) == canonical_locale(requested@),
            !bundle_isolating(bundle),
            forall|k: int| 0 <= k < i ==> #[trigger] source_accepted(vs, k),
        decreases sources.len() - i,
    {
        let source = sources[i].clone();
        let resource = match load_resource(source) {
            Ok(resource) => resource,
            Err(error) => return Err(BundleError::Parse { index: i, message: error.message }),
        };
        let added = add_resource(&mut bundle, resource);
        proof {
            assert(vs.take(i + 1) =~= vs.take(i as int).push(vs[i as int]));
        }
        match added {
            Ok(()) => {}
            Err(errors) => {
                return Err(BundleError::Overriding { index: i, message: last_or_empty(errors) });
            }
        }
        i += 1;
    }
    assert(vs.take(sources@.len() as int) =~= vs);
    Ok(bundle)
}

} // verus!
