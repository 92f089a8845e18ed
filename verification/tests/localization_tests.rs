use hartex::bindings::{binding_function, plan_bindings, resolve_dependencies, sanitize_name, sort_by_keys, sort_by_lowercase,
    LocalizationResource};
use hartex::localization::{generate_nodes_for_resource, process_inline_expression, BindingError, Entry, Expression,
    InlineExpression, LocalizationNode, Pattern, PatternElement};
use hartex::localization_core::{bundle_plan, found_names, handle_errors, last_error, locale_directory, localize_outcome,
    missing_names, not_a_directory_message, requested_locale, validate_completeness};

fn s(x: &str) -> String {
    String::from(x)
}

fn var(id: &str) -> PatternElement {
    PatternElement::Placeable { expression: Expression::Inline { expression: InlineExpression::VariableReference { id: s(id) } } }
}

fn msg_ref(id: &str) -> PatternElement {
    PatternElement::Placeable { expression: Expression::Inline { expression: InlineExpression::MessageReference { id: s(id) } } }
}

fn term_ref(id: &str) -> PatternElement {
    PatternElement::Placeable { expression: Expression::Inline { expression: InlineExpression::TermReference { id: s(id) } } }
}

fn text(t: &str) -> PatternElement {
    PatternElement::TextElement { value: s(t) }
}

fn message(id: &str, elements: Vec<PatternElement>) -> Entry {
    Entry::Message { id: s(id), value: Some(Pattern { elements }) }
}

fn term(id: &str, elements: Vec<PatternElement>) -> Entry {
    Entry::Term { id: s(id), pattern: Pattern { elements } }
}

fn sorted(mut v: Vec<String>) -> Vec<String> {
    v.sort();
    v
}

#[test]
fn new_node_is_empty() {
    let node = LocalizationNode::new("general", "hello", false);
    assert_eq!(node.category, "general");
    assert_eq!(node.name, "hello");
    assert!(node.variables.is_empty() && node.dependencies.is_empty() && !node.term);
}

#[test]
fn inline_expressions_record_references() {
    let mut node = LocalizationNode::new("c", "n", false);
    assert!(process_inline_expression(&InlineExpression::VariableReference { id: s("user") }, &mut node).is_ok());
    assert!(process_inline_expression(&InlineExpression::VariableReference { id: s("user") }, &mut node).is_ok());
    assert!(process_inline_expression(&InlineExpression::TermReference { id: s("brand") }, &mut node).is_ok());
    assert!(process_inline_expression(&InlineExpression::StringLiteral { value: s("x") }, &mut node).is_ok());
    assert_eq!(node.variables, vec![s("user")]);
    assert_eq!(node.dependencies, vec![s("brand")]);
    let r = process_inline_expression(&InlineExpression::FunctionReference { id: s("NUMBER") }, &mut node);
    assert!(matches!(r, Err(BindingError::UnsupportedFunction(f)) if f == "NUMBER"));
}

#[test]
fn nodes_of_a_resource() {
    let entries = vec![
        message("greeting", vec![text("Hello, "), var("name"), text("!")]),
        Entry::Message { id: s("no-value"), value: None },
        Entry::Comment,
        term("brand", vec![text("HarTex")]),
        message("select", vec![PatternElement::Placeable { expression: Expression::Select {
            selector: InlineExpression::VariableReference { id: s("count") },
            variants: vec![Pattern { elements: vec![var("other")] }, Pattern { elements: vec![term_ref("brand")] }],
        } }]),
    ];
    let nodes = generate_nodes_for_resource("general", &entries).ok().unwrap();
    assert_eq!(nodes.len(), 3);
    assert_eq!(nodes[0].name, "greeting");
    assert_eq!(nodes[0].variables, vec![s("name")]);
    assert!(nodes[1].term && nodes[1].name == "brand");
    assert_eq!(sorted(nodes[2].variables.clone()), vec![s("count"), s("other")]);
    assert_eq!(nodes[2].dependencies, vec![s("brand")]);
    assert!(nodes.iter().all(|n| n.category == "general"));
}

#[test]
fn resolution_pulls_in_transitive_variables() {
    let mut a = LocalizationNode::new("c", "a", false);
    a.dependencies.push(s("b"));
    a.variables.push(s("x"));
    let mut b = LocalizationNode::new("c", "b", false);
    b.dependencies.push(s("t"));
    b.variables.push(s("y"));
    let mut t = LocalizationNode::new("c", "t", true);
    t.variables.push(s("z"));
    let resolved = resolve_dependencies(vec![a, b, t]).ok().unwrap();
    assert!(resolved.iter().all(|n| n.dependencies.is_empty()));
    assert_eq!(sorted(resolved[0].variables.clone()), vec![s("x"), s("y"), s("z")]);
    assert_eq!(sorted(resolved[1].variables.clone()), vec![s("y"), s("z")]);
    assert_eq!(resolved[2].variables, vec![s("z")]);
}

#[test]
fn resolution_errors() {
    let mut a = LocalizationNode::new("c", "a", false);
    a.dependencies.push(s("missing"));
    assert!(matches!(resolve_dependencies(vec![a]), Err(BindingError::MissingDependency(d)) if d == "missing"));
    let mut a = LocalizationNode::new("c", "a", false);
    a.dependencies.push(s("b"));
    let mut b = LocalizationNode::new("c", "b", false);
    b.dependencies.push(s("a"));
    assert!(matches!(resolve_dependencies(vec![a, b]), Err(BindingError::CyclicDependency(_))));
    let mut selfish = LocalizationNode::new("c", "self", false);
    selfish.dependencies.push(s("self"));
    assert!(matches!(resolve_dependencies(vec![selfish]), Err(BindingError::CyclicDependency(c)) if c == "self"));
}

#[test]
fn names_and_ordering() {
    assert_eq!(sanitize_name("Embed-Title"), "embed_title");
    assert_eq!(sort_by_lowercase(&vec![s("b"), s("A"), s("c")]), vec![s("A"), s("b"), s("c")]);
}

#[test]
fn binding_function_of_a_message() {
    let mut node = LocalizationNode::new("general-plugin", "about-embed", false);
    node.variables.push(s("userName"));
    node.variables.push(s("count"));
    let f = binding_function(&node).ok().unwrap();
    assert_eq!(f.ident, "general_plugin_about_embed");
    assert_eq!(f.variables, vec![s("count"), s("userName")]);
    assert_eq!(f.arguments, vec![s("count"), s("username")]);
    assert_eq!(f.generics, vec!['A', 'B']);
}

#[test]
fn too_many_variables() {
    let mut node = LocalizationNode::new("c", "big", false);
    for i in 0..27 {
        node.variables.push(format!("v{i}"));
    }
    assert!(matches!(binding_function(&node), Err(BindingError::TooManyVariables(n)) if n == "big"));
}

#[test]
fn plan_of_resources() {
    let resources = vec![
        LocalizationResource { name: s("general"), entries: vec![message("hello", vec![text("Hi "), var("user"), msg_ref("bye")])] },
        LocalizationResource { name: s("other"), entries: vec![message("bye", vec![var("when")]), term("brand", vec![text("X")])] },
    ];
    let plan = plan_bindings(&resources).ok().unwrap();
    assert_eq!(sorted(plan.messages.clone()), vec![s("bye"), s("hello")]);
    assert_eq!(plan.terms, vec![s("brand")]);
    let hello = plan.messages.iter().position(|m| m == "hello").unwrap();
    assert_eq!(plan.functions[hello].ident, "general_hello");
    assert_eq!(plan.functions[hello].variables, vec![s("user"), s("when")]);
}

#[test]
fn later_entry_replaces_earlier() {
    let resources = vec![
        LocalizationResource { name: s("first"), entries: vec![message("same", vec![var("a")])] },
        LocalizationResource { name: s("second"), entries: vec![message("same", vec![var("b")])] },
    ];
    let plan = plan_bindings(&resources).ok().unwrap();
    assert_eq!(plan.messages, vec![s("same")]);
    assert_eq!(plan.functions[0].ident, "second_same");
    assert_eq!(plan.functions[0].variables, vec![s("b")]);
}

#[test]
fn plan_errors() {
    let missing = vec![LocalizationResource { name: s("r"), entries: vec![message("a", vec![msg_ref("nowhere")])] }];
    assert!(matches!(plan_bindings(&missing), Err(BindingError::MissingDependency(d)) if d == "nowhere"));
    let function = vec![LocalizationResource { name: s("r"), entries: vec![message("a", vec![PatternElement::Placeable {
        expression: Expression::Inline { expression: InlineExpression::FunctionReference { id: s("DATETIME") } },
    }])] }];
    assert!(matches!(plan_bindings(&function), Err(BindingError::UnsupportedFunction(_))));
}

#[test]
fn bundle_locations() {
    assert_eq!(requested_locale(None), "en-GB");
    assert_eq!(requested_locale(Some(s("ja"))), "ja");
    assert_eq!(locale_directory("ja"), "../localization/locales/ja");
    let path = vec![s("discord-frontend"), s("commands")];
    let plan = bundle_plan(s("ja"), true, &path);
    assert_eq!(plan.locales, vec![s("ja")]);
    assert_eq!(plan.directory, "../localization/locales/ja/discord-frontend/commands");
    let plan = bundle_plan(s("xx"), false, &path);
    assert_eq!(plan.locales, vec![s("en-GB")]);
    assert_eq!(plan.directory, "../localization/locales/en-GB/discord-frontend/commands");
    assert_eq!(not_a_directory_message("/x"), "localization root is not a directory: /x");
    let absolute = vec![s("/elsewhere"), s("commands")];
    assert_eq!(bundle_plan(s("ja"), true, &absolute).directory, "/elsewhere/commands");
}

#[test]
fn fluent_errors() {
    assert!(handle_errors(Vec::<u8>::new()).is_ok());
    assert_eq!(handle_errors(vec![3u8, 4, 5]), Err(3));
    assert_eq!(last_error(vec![3u8, 4, 5]), Some(5));
    assert_eq!(last_error(Vec::<u8>::new()), None);
}

#[test]
fn completeness_report() {
    let messages = vec![s("a"), s("b"), s("c")];
    let terms = vec![s("t"), s("u")];
    assert_eq!(missing_names(&messages, &vec![s("b")]), vec![s("a"), s("c")]);
    assert!(validate_completeness(&messages, &terms, &messages, &terms).is_ok());
    let r = validate_completeness(&messages, &terms, &vec![s("b")], &vec![s("t")]);
    assert_eq!(r, Err(s("messages a,c and terms u are missing")));
    let r = validate_completeness(&messages, &terms, &messages, &Vec::new());
    assert_eq!(r, Err(s("messages  and terms t,u are missing")));
}

#[test]
fn localize_outcomes() {
    assert_eq!(localize_outcome(s("Hello"), &Vec::new()), Ok(s("Hello")));
    let r = localize_outcome(s("Hello"), &vec![s("e1"), s("e2")]);
    assert_eq!(r, Err(s("errors found when localizing message: e1,e2")));
}

#[test]
fn names_found_in_the_default_bundle() {
    let entries = vec![
        message("hello", vec![text("Hi")]),
        Entry::Message { id: s("empty"), value: None },
        term("brand", vec![text("X")]),
        Entry::Comment,
        message("hello", vec![text("Again")]),
    ];
    let (messages, terms) = found_names(&entries);
    assert_eq!(messages, vec![s("hello")]);
    assert_eq!(terms, vec![s("brand")]);
}

#[test]
fn sorting_by_given_keys() {
    let entries = vec![
        (vec!['b'], s("second")),
        (vec!['a', 'z'], s("first")),
        (vec!['b'], s("third")),
        (vec![], s("zeroth")),
    ];
    let sorted = sort_by_keys(entries);
    let names: Vec<&str> = sorted.iter().map(|(_, name)| name.as_str()).collect();
    assert_eq!(names, vec!["zeroth", "first", "second", "third"]);
}
