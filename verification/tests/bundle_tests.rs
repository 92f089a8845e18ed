use hartex::bundle::{build_bundle, load_resource, BundleError};
use hartex::paths::join_path;

fn s(x: &str) -> String {
    String::from(x)
}

#[test]
fn bundle_of_valid_sources() {
    let sources = vec![s("hello = Hi!\n"), s("-brand = HarTex\nbye = Bye { -brand }\n")];
    let bundle = build_bundle("en-GB", true, sources).ok().unwrap();
    assert!(bundle.bundle.has_message("hello"));
    assert!(bundle.bundle.has_message("bye"));
    let message = bundle.bundle.get_message("bye").unwrap();
    let mut errors = Vec::new();
    let text = bundle.bundle.format_pattern(message.value().unwrap(), None, &mut errors);
    assert!(errors.is_empty());
    assert_eq!(text, "Bye HarTex");
}

#[test]
fn bundle_refuses_redefinition() {
    let sources = vec![s("hello = Hi!\n"), s("other = x\n"), s("hello = Again\n")];
    assert!(matches!(build_bundle("en-GB", true, sources), Err(BundleError::Overriding { index: 2, .. })));
    let same = vec![s("a = 1\na = 2\n")];
    assert!(matches!(build_bundle("ja", true, same), Err(BundleError::Overriding { index: 0, .. })));
}

#[test]
fn bundle_refuses_bad_sources_and_locales() {
    let sources = vec![s("ok = fine\n"), s("broken = {\n")];
    assert!(matches!(build_bundle("en-GB", true, sources), Err(BundleError::Parse { index: 1, .. })));
    assert!(matches!(build_bundle("not a locale!", true, vec![s("a = b\n")]), Err(BundleError::InvalidLocale)));
    assert!(build_bundle("en-GB", true, Vec::new()).is_ok());
}

#[test]
fn resources_keep_their_source() {
    let resource = load_resource(s("hello = Hi!\n")).ok().unwrap();
    assert_eq!(resource.source(), "hello = Hi!\n");
    assert!(load_resource(s("= nothing\n")).is_err());
}

#[test]
fn joining_paths_matches_std() {
    for (base, rel) in [("/repo", "x"), ("/repo/", "x"), ("", "x"), ("a", ""), ("/repo", "/abs"), ("a/b", "c/d")] {
        let ours = join_path(base, rel);
        let theirs = std::path::Path::new(base).join(rel);
        assert_eq!(ours, theirs.to_str().unwrap(), "{base} {rel}");
    }
}

#[test]
fn bundle_locale_and_isolation() {
    let bundle = build_bundle("ja", true, vec![s("time = { $t }\n")]).ok().unwrap();
    assert_eq!(bundle.bundle.locales.iter().map(|l| l.to_string()).collect::<Vec<_>>(), vec![s("ja")]);
    let message = bundle.bundle.get_message("time").unwrap();
    let mut args = fluent_bundle::FluentArgs::new();
    args.set("t", "<t:1:R>");
    let mut errors = Vec::new();
    let text = bundle.bundle.format_pattern(message.value().unwrap(), Some(&args), &mut errors);
    assert_eq!(text, "<t:1:R>");
    let fallback = build_bundle("xx-YY", false, Vec::new()).ok().unwrap();
    assert_eq!(fallback.bundle.locales.iter().map(|l| l.to_string()).collect::<Vec<_>>(), vec![s("en-GB")]);
}

#[test]
fn errors_are_the_last_reported() {
    let sources = vec![s("a = 1\nb = 2\n"), s("a = 3\n-b = 4\nb = 5\n")];
    match build_bundle("en-GB", true, sources) {
        Err(BundleError::Overriding { index, message }) => {
            assert_eq!(index, 1);
            assert_eq!(message, "Attempt to override an existing message: \"b\".");
        }
        _ => panic!("expected an overriding error"),
    }
}
