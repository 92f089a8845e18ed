//! Localization bundles: where a bundle's resources are read from, which
//! locale it falls back to, and how the errors of Fluent are reported.

use vstd::prelude::*;
use crate::localization::Entry;
use crate::names::{insert_name, name_set, views};
use crate::paths::{join_path, joined_path};
use crate::text::{joined, join_strings};

verus! {

/// The locale that a bundle falls back to.
pub open spec fn fallback_locale() -> Seq<char> {
    "en-GB"@
}

/// The directory that holds the locales' resources.
pub open spec fn locales_root() -> Seq<char> {
    "../localization/locales"@
}

/// The locale asked for, or the fallback locale when none is.
pub fn requested_locale(requested: Option<String>) -> (r: String)
    ensures
        r@ == match requested {
            Some(l) => l@,
            None => fallback_locale(),
        },
{
    match requested {
        Some(locale) => locale,
        None => String::from_str("en-GB"),
    }
}

/// The directory of a locale's resources.
pub open spec fn locale_directory_text(locale: Seq<char>) -> Seq<char> {
    joined_path(locales_root(), locale)
}

/// The directory of a locale's resources.
pub fn locale_directory(locale: &str) -> (r: String)
    ensures
        r@ == locale_directory_text(locale@),
{
    join_path("../localization/locales", locale)
}

/// The directory of a bundle's resources and the locales of the bundle.
pub struct BundlePlan {
    pub locales: Vec<String>,
    pub directory: String,
}

/// The segments of `path` pushed one after the other onto `base`.
pub open spec fn pushed(base: Seq<char>, path: Seq<Seq<char>>) -> Seq<char>
    decreases path.len(),
{
    if path.len() == 0 {
        base
    } else {
        joined_path(pushed(base, path.drop_last()), path.last())
    }
}

/// Where the bundle of `locale` reads its resources from, given whether the
/// locale's directory exists: the locale's directory, else the fallback
/// locale's, with the segments of `path` below it. Without the locale's
/// directory the bundle's only locale becomes the fallback locale.
pub fn bundle_plan(locale: String, locale_exists: bool, path: &Vec<String>) -> (r: BundlePlan)
    ensures
        r.locales@.len() == 1,
        r.locales@[0]@ == if locale_exists { locale@ } else { fallback_locale() },
        r.directory@ == pushed(locale_directory_text(if locale_exists { locale@ } else { fallback_locale() }), views(path@)),
{
    let chosen = if locale_exists {
        locale
    } else {
        String::from_str("en-GB")
    };
    proof {
        reveal_strlit("en-GB");
    }
    let mut directory = locale_directory(chosen.as_str());
    let ghost base = directory@;
    let mut i: usize = 0;
    while i < path.len()
        invariant
            i <= path.len(),
            directory@ == pushed(base, views(path@).take(i as int)),
        decreases path.len() - i,
    {
        directory = join_path(directory.as_str(), path[i].as_str());
        proof {
            assert(views(path@).take(i + 1).drop_last() =~= views(path@).take(i as int));
        }
        i += 1;
    }
    assert(views(path@).take(path.len() as int) =~= views(path@));
    let mut locales: Vec<String> = Vec::new();
    locales.push(chosen);
    BundlePlan { locales, directory }
}

/// The error reported when a bundle's directory is not a directory.
pub open spec fn not_a_directory_text(directory: Seq<char>) -> Seq<char> {
    "localization root is not a directory: "@ + directory
}

/// The error reported when a bundle's directory is not a directory.
pub fn not_a_directory_message(directory: &str) -> (r: String)
    ensures
        r@ == not_a_directory_text(directory@),
{
    let mut message = String::from_str("localization root is not a directory: ");
    message.append(directory);
    message
}

/// Handle errors returned from Fluent: success when there are none, else
/// the first of them.
pub fn handle_errors<E>(errors: Vec<E>) -> (r: Result<(), E>)
    ensures
        errors@.len() == 0 ==> r is Ok,
        errors@.len() > 0 ==> r == Err::<(), E>(errors@[0]),
{
    if errors.len() == 0 {
        return Ok(());
    }
    let mut errors = errors;
    Err(errors.remove(0))
}

/// The error of a failed parse or insertion that gets reported: the last
/// of the errors, if there are any.
pub fn last_error<E>(errors: Vec<E>) -> (r: Option<E>)
    ensures
        errors@.len() == 0 ==> r is None,
        errors@.len() > 0 ==> r == Some(errors@.last()),
{
    let mut errors = errors;
    errors.pop()
}

/// The names of `expected` that `found` does not hold, in order.
pub open spec fn missing(expected: Seq<String>, found: Set<Seq<char>>) -> Seq<Seq<char>>
    decreases expected.len(),
{
    if expected.len() == 0 {
        Seq::empty()
    } else if found.contains(expected.last()@) {
        missing(expected.drop_last(), found)
    } else {
        missing(expected.drop_last(), found).push(expected.last()@)
    }
}

/// The names of `expected` that `found` does not hold, in order.
pub fn missing_names(expected: &Vec<String>, found: &Vec<String>) -> (r: Vec<String>)
    ensures
        views(r@) == missing(expected@, name_set(found@)),
{
    let mut out: Vec<String> = Vec::new();
    let mut i: usize = 0;
    while i < expected.len()
        invariant
            i <= expected.len(),
            views(out@) == missing(expected@.take(i as int), name_set(found@)),
        decreases expected.len() - i,
    {
        let ghost before = out@;
        proof {
            assert(expected@.take(i + 1).drop_last() =~= expected@.take(i as int));
        }
        if !crate::names::contains_name(found, &expected[i]) {
            out.push(expected[i].clone());
            assert(views(out@) =~= views(before).push(expected@[i as int]@));
        }
        i += 1;
    }
    assert(expected@.take(expected.len() as int) =~= expected@);
    out
}

/// The outcome of checking that the default bundle holds every message and
/// term that the bindings name: success, or the message that lists the
/// missing messages and the missing terms, each separated by commas.
pub open spec fn completeness(messages: Seq<String>, terms: Seq<String>, found_messages: Set<Seq<char>>, found_terms: Set<Seq<char>>) -> Result<(), Seq<char>> {
    let mm = missing(messages, found_messages);
    let mt = missing(terms, found_terms);
    if mm.len() == 0 && mt.len() == 0 {
        Ok(())
    } else {
        Err("messages "@ + joined(mm, seq![',']) + " and terms "@ + joined(mt, seq![',']) + " are missing"@)
    }
}

/// Checks that the bundle holds every message and every term: `found_messages`
/// are the messages of the bundle that have a value, `found_terms` its terms.
pub fn validate_completeness(messages: &Vec<String>, terms: &Vec<String>, found_messages: &Vec<String>, found_terms: &Vec<String>) -> (r: Result<(), String>)
    ensures
        match r {
            Ok(()) => completeness(messages@, terms@, name_set(found_messages@), name_set(found_terms@)) is Ok,
            Err(m) => completeness(messages@, terms@, name_set(found_messages@), name_set(found_terms@)) == Err::<(), Seq<char>>(m@),
        },
{
    let missing_messages = missing_names(messages, found_messages);
    let missing_terms = missing_names(terms, found_terms);
    if missing_messages.len() == 0 && missing_terms.len() == 0 {
        return Ok(());
    }
    let mut message = String::from_str("messages ");
    let mm = join_strings(&missing_messages, ",");
    let mt = join_strings(&missing_terms, ",");
    message.append(mm.as_str());
    message.append(" and terms ");
    message.append(mt.as_str());
    message.append(" are missing");
    proof {
        reveal_strlit(",");
        assert(","@ =~= seq![',']);
    }
    Err(message)
}

/// The error reported when formatting a message gave errors: the errors'
/// texts separated by commas.
pub open spec fn localize_error_text(errors: Seq<String>) -> Seq<char> {
    "errors found when localizing message: "@ + joined(views(errors), seq![','])
}

/// The outcome of formatting a message: its text when Fluent reported no
/// error, else the error that lists the errors.
pub fn localize_outcome(localized: String, errors: &Vec<String>) -> (r: Result<String, String>)
    ensures
        errors@.len() == 0 ==> r == Ok::<String, String>(localized),
        errors@.len() > 0 ==> (r matches Err(m) && m@ == localize_error_text(errors@)),
{
    if errors.len() == 0 {
        return Ok(localized);
    }
    let mut message = String::from_str("errors found when localizing message: ");
    let list = join_strings(errors, ",");
    message.append(list.as_str());
    proof {
        reveal_strlit(",");
        assert(","@ =~= seq![',']);
    }
    Err(message)
}


/// Nothing is missing exactly when every expected name is found.
pub proof fn lemma_nothing_missing(expected: Seq<String>, found: Set<Seq<char>>)
    ensures
        missing(expected, found).len() == 0 <==> forall|i: int| 0 <= i < expected.len() ==> found.contains(#[trigger] expected[i]@),
    decreases expected.len(),
{
    if expected.len() > 0 {
        lemma_nothing_missing(expected.drop_last(), found);
        assert forall|i: int| 0 <= i < expected.len() - 1 implies #[trigger] expected.drop_last()[i] == expected[i] by {}
        if forall|i: int| 0 <= i < expected.len() ==> found.contains(#[trigger] expected[i]@) {
            assert(found.contains(expected[expected.len() - 1]@));
            assert forall|i: int| 0 <= i < expected.drop_last().len() implies found.contains(#[trigger] expected.drop_last()[i]@) by {
                assert(found.contains(expected[i]@));
            }
        }
        if missing(expected, found).len() == 0 {
            assert forall|i: int| 0 <= i < expected.len() implies found.contains(#[trigger] expected[i]@) by {
                if i < expected.len() - 1 {
                    assert(expected.drop_last()[i] == expected[i]);
                }
            }
        }
    }
}

/// The completeness check of the default bundle succeeds exactly when the
/// bundle holds every message and every term that the bindings name.
pub proof fn lemma_completeness_ok(messages: Seq<String>, terms: Seq<String>, found_messages: Set<Seq<char>>, found_terms: Set<Seq<char>>)
    ensures
        completeness(messages, terms, found_messages, found_terms) is Ok <==> (forall|i: int| 0 <= i < messages.len()
            ==> found_messages.contains(#[trigger] messages[i]@)) && (forall|i: int| 0 <= i < terms.len()
            ==> found_terms.contains(#[trigger] terms[i]@)),
{
    lemma_nothing_missing(messages, found_messages);
    lemma_nothing_missing(terms, found_terms);
}


/// The messages with a value among the entries.
pub open spec fn valued_messages(entries: Seq<Entry>) -> Set<Seq<char>>
    decreases entries.len(),
{
    if entries.len() == 0 {
        Set::empty()
    } else {
        match entries.last() {
            Entry::Message { id, value } => if value is Some {
                valued_messages(entries.drop_last()).insert(id@)
            } else {
                valued_messages(entries.drop_last())
            },
            _ => valued_messages(entries.drop_last()),
        }
    }
}

/// The terms among the entries.
pub open spec fn defined_terms(entries: Seq<Entry>) -> Set<Seq<char>>
    decreases entries.len(),
{
    if entries.len() == 0 {
        Set::empty()
    } else {
        match entries.last() {
            Entry::Term { id, .. } => defined_terms(entries.drop_last()).insert(id@),
            _ => defined_terms(entries.drop_last()),
        }
    }
}

/// The names that the entries of the default bundle define: the messages
/// that have a value, and the terms; each name once.
pub fn found_names(entries: &Vec<Entry>) -> (r: (Vec<String>, Vec<String>))
    ensures
        name_set(r.0@) == valued_messages(entries@),
        name_set(r.1@) == defined_terms(entries@),
{
    let mut messages: Vec<String> = Vec::new();
    let mut terms: Vec<String> = Vec::new();
    let mut i: usize = 0;
    assert(name_set(messages@) =~= Set::<Seq<char>>::empty());
    assert(name_set(terms@) =~= Set::<Seq<char>>::empty());
    while i < entries.len()
        invariant
            i <= entries.len(),
            crate::names::distinct(messages@),
            crate::names::distinct(terms@),
            name_set(messages@) == valued_messages(entries@.take(i as int)),
            name_set(terms@) == defined_terms(entries@.take(i as int)),
        decreases entries.len() - i,
    {
        proof {
            assert(entries@.take(i + 1).drop_last() =~= entries@.take(i as int));
            assert(entries@.take(i + 1).last() == entries@[i as int]);
        }
        match &entries[i] {
            Entry::Message { id, value } => {
                if value.is_some() {
                    insert_name(&mut messages, id.clone());
                }
            }
            Entry::Term { id, .. } => {
                insert_name(&mut terms, id.clone());
            }
            Entry::Comment => {}
        }
        i += 1;
    }
    assert(entries@.take(entries.len() as int) =~= entries@);
    (messages, terms)
}

} // verus!
