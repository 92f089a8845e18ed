//! Analysis of Fluent localization resources for the generation of typed
//! localization bindings: which variables and which other entries each
//! message or term refers to, and the transitive resolution of those
//! references.

use vstd::prelude::*;
use crate::names::{distinct, name_set, views, insert_name};

verus! {

/// An inline Fluent expression.
pub enum InlineExpression {
    StringLiteral { value: String },
    NumberLiteral { value: String },
    FunctionReference { id: String },
    MessageReference { id: String },
    TermReference { id: String },
    VariableReference { id: String },
    Placeable { expression: Box<Expression> },
}

/// A Fluent expression: inline, or a selection among variants.
pub enum Expression {
    Inline { expression: InlineExpression },
    Select { selector: InlineExpression, variants: Vec<Pattern> },
}

/// An element of a Fluent pattern.
pub enum PatternElement {
    TextElement { value: String },
    Placeable { expression: Expression },
}

/// A Fluent pattern: the value of a message, of a term or of a variant.
pub struct Pattern {
    pub elements: Vec<PatternElement>,
}

/// An entry of a Fluent resource.
pub enum Entry {
    Message { id: String, value: Option<Pattern> },
    Term { id: String, pattern: Pattern },
    Comment,
}

/// What a piece of Fluent refers to: the variables it reads, the messages and
/// terms it depends on, and whether it calls a function.
pub type Refs = (Set<Seq<char>>, Set<Seq<char>>, bool);

pub open spec fn no_refs() -> Refs {
    (Set::empty(), Set::empty(), false)
}

pub open spec fn merge(a: Refs, b: Refs) -> Refs {
    (a.0.union(b.0), a.1.union(b.1), a.2 || b.2)
}

/// What an inline expression refers to.
pub open spec fn inline_refs(e: InlineExpression) -> Refs
    decreases e,
{
    match e {
        InlineExpression::FunctionReference { .. } => (Set::empty(), Set::empty(), true),
        InlineExpression::MessageReference { id } => (Set::empty(), set![id@], false),
        InlineExpression::TermReference { id } => (Set::empty(), set![id@], false),
        InlineExpression::VariableReference { id } => (set![id@], Set::empty(), false),
        InlineExpression::Placeable { expression } => expression_refs(*expression),
        _ => no_refs(),
    }
}

/// What an expression refers to.
pub open spec fn expression_refs(e: Expression) -> Refs
    decreases e,
{
    match e {
        Expression::Inline { expression } => inline_refs(expression),
        Expression::Select { selector, variants } => merge(inline_refs(selector), patterns_refs(variants@)),
    }
}

/// What a pattern element refers to.
pub open spec fn element_refs(e: PatternElement) -> Refs
    decreases e,
{
    match e {
        PatternElement::TextElement { .. } => no_refs(),
        PatternElement::Placeable { expression } => expression_refs(expression),
    }
}

/// What a sequence of pattern elements refers to.
pub open spec fn elements_refs(els: Seq<PatternElement>) -> Refs
    decreases els,
{
    if els.len() == 0 {
        no_refs()
    } else {
        merge(elements_refs(els.subrange(0, els.len() - 1)), element_refs(els[els.len() - 1]))
    }
}

/// What a sequence of patterns refers to.
pub open spec fn patterns_refs(ps: Seq<Pattern>) -> Refs
    decreases ps,
{
    if ps.len() == 0 {
        no_refs()
    } else {
        merge(patterns_refs(ps.subrange(0, ps.len() - 1)), elements_refs(ps[ps.len() - 1].elements@))
    }
}

/// A message or term of a localization resource, with the variables it
/// reads and the messages and terms it depends on.
pub struct LocalizationNode {
    pub category: String,
    pub name: String,
    pub variables: Vec<String>,
    pub dependencies: Vec<String>,
    pub term: bool,
}

impl LocalizationNode {
    /// Neither the variables nor the dependencies repeat a name.
    pub open spec fn wf(&self) -> bool {
        distinct(self.variables@) && distinct(self.dependencies@)
    }

    /// The set of variables the node reads.
    pub open spec fn variable_set(&self) -> Set<Seq<char>> {
        name_set(self.variables@)
    }

    /// The set of messages and terms the node depends on.
    pub open spec fn dependency_set(&self) -> Set<Seq<char>> {
        name_set(self.dependencies@)
    }

    /// Constructs a new localization node without variables or dependencies.
    pub fn new(category: &str, name: &str, term: bool) -> (r: Self)
        ensures
            r.wf(),
            r.category@ == category@,
            r.name@ == name@,
            r.variables@.len() == 0,
            r.dependencies@.len() == 0,
            r.term == term,
    {
        let r = LocalizationNode {
            category: String::from_str(category),
            name: String::from_str(name),
            variables: Vec::new(),
            dependencies: Vec::new(),
            term,
        };
        assert(views(r.variables@) =~= Seq::<Seq<char>>::empty());
        assert(views(r.dependencies@) =~= Seq::<Seq<char>>::empty());
        r
    }
}

/// `node` is `old` with the references `refs` added.
pub open spec fn absorbed(old: LocalizationNode, node: LocalizationNode, refs: Refs) -> bool {
    &&& node.wf()
    &&& node.category == old.category
    &&& node.name == old.name
    &&& node.term == old.term
    &&& node.variable_set() == old.variable_set().union(refs.0)
    &&& node.dependency_set() == old.dependency_set().union(refs.1)
}

proof fn lemma_absorbed_trans(a: LocalizationNode, b: LocalizationNode, c: LocalizationNode, r1: Refs, r2: Refs)
    requires
        absorbed(a, b, r1),
        absorbed(b, c, r2),
    ensures
        absorbed(a, c, merge(r1, r2)),
{
    assert(c.variable_set() =~= a.variable_set().union(merge(r1, r2).0));
    assert(c.dependency_set() =~= a.dependency_set().union(merge(r1, r2).1));
}

proof fn lemma_absorbed_nothing(a: LocalizationNode)
    requires
        a.wf(),
    ensures
        absorbed(a, a, no_refs()),
{
    assert(a.variable_set() =~= a.variable_set().union(Set::empty()));
    assert(a.dependency_set() =~= a.dependency_set().union(Set::empty()));
}

/// Why the localization bindings cannot be generated.
pub enum BindingError {
    /// A pattern calls a Fluent function, which bindings do not support.
    UnsupportedFunction(String),
    /// A node depends on a message or term that no node defines.
    MissingDependency(String),
    /// A node depends, directly or not, on itself.
    CyclicDependency(String),
    /// A message reads more variables than there are generic parameter letters.
    TooManyVariables(String),
}

/// `node` keeps the well-formedness, name, category and kind of `old`.
pub open spec fn kept(old: LocalizationNode, node: LocalizationNode) -> bool {
    &&& node.wf()
    &&& node.category == old.category
    &&& node.name == old.name
    &&& node.term == old.term
}

/// Process an inline Fluent expression: record the variables and the
/// messages and terms that it refers to. A function reference is not
/// supported.
pub fn process_inline_expression(expression: &InlineExpression, node: &mut LocalizationNode) -> (r: Result<(), BindingError>)
    requires
        old(node).wf(),
    ensures
        r is Ok <==> !inline_refs(*expression).2,
        r matches Err(e) ==> e is UnsupportedFunction,
        r is Ok ==> absorbed(*old(node), *final(node), inline_refs(*expression)),
        kept(*old(node), *final(node)),
        expression matches InlineExpression::VariableReference { id } ==> r is Ok
            && final(node).variable_set() == old(node).variable_set().insert(id@)
            && final(node).dependency_set() == old(node).dependency_set(),
        expression matches InlineExpression::MessageReference { id } ==> r is Ok
            && final(node).dependency_set() == old(node).dependency_set().insert(id@)
            && final(node).variable_set() == old(node).variable_set(),
        expression matches InlineExpression::TermReference { id } ==> r is Ok
            && final(node).dependency_set() == old(node).dependency_set().insert(id@)
            && final(node).variable_set() == old(node).variable_set(),
    decreases expression,
{
    let ghost start = *node;
    let r = match expression {
        InlineExpression::FunctionReference { id } => Err(BindingError::UnsupportedFunction(id.clone())),
        InlineExpression::MessageReference { id } => {
            insert_name(&mut node.dependencies, id.clone());
            Ok(())
        }
        InlineExpression::TermReference { id } => {
            insert_name(&mut node.dependencies, id.clone());
            Ok(())
        }
        InlineExpression::VariableReference { id } => {
            insert_name(&mut node.variables, id.clone());
            Ok(())
        }
        InlineExpression::Placeable { expression } => process_expression(expression, node),
        _ => Ok(()),
    };
    proof {
        if r is Ok {
            assert(node.variable_set() =~= start.variable_set().union(inline_refs(*expression).0));
            assert(node.dependency_set() =~= start.dependency_set().union(inline_refs(*expression).1));
        }
    }
    r
}

/// Process a Fluent expression.
pub fn process_expression(expression: &Expression, node: &mut LocalizationNode) -> (r: Result<(), BindingError>)
    requires
        old(node).wf(),
    ensures
        r is Ok <==> !expression_refs(*expression).2,
        r matches Err(e) ==> e is UnsupportedFunction,
        r is Ok ==> absorbed(*old(node), *final(node), expression_refs(*expression)),
        kept(*old(node), *final(node)),
    decreases expression,
{
    match expression {
        Expression::Inline { expression } => process_inline_expression(expression, node),
        Expression::Select { selector, variants } => {
            let ghost start = *node;
            process_inline_expression(selector, node)?;
            let ghost mid = *node;
            let mut i: usize = 0;
            proof {
                assert(variants@.subrange(0, 0) =~= Seq::<Pattern>::empty());
                lemma_absorbed_nothing(mid);
                assert(decreases_to!(*expression => *variants));
                assert(decreases_to!(*variants => variants@));
            }
            while i < variants.len()
                invariant
                    i <= variants.len(),
                    !inline_refs(*selector).2,
                    !patterns_refs(variants@.subrange(0, i as int)).2,
                    absorbed(mid, *node, patterns_refs(variants@.subrange(0, i as int))),
                    absorbed(start, mid, inline_refs(*selector)),
                    kept(start, *node),
                    start == *old(node),
                    decreases_to!(*expression => variants@),
                    expression_refs(*expression) == merge(inline_refs(*selector), patterns_refs(variants@)),
                decreases variants.len() - i,
            {
                let ghost before = *node;
                proof {
                    assert(variants@.subrange(0, i + 1).subrange(0, i as int) =~= variants@.subrange(0, i as int));
                    assert(decreases_to!(variants@ => variants@[i as int]));
                    assert(decreases_to!(variants@[i as int] => variants@[i as int].elements));
                    assert(decreases_to!(variants@[i as int].elements => variants@[i as int].elements@));
                }
                let step = process_pattern_elements(&variants[i].elements, node);
                if step.is_err() {
                    proof {
                        let q = variants@.subrange(0, i + 1);
                        assert(q[q.len() - 1] == variants@[i as int]);
                        assert(patterns_refs(q) == merge(patterns_refs(q.subrange(0, q.len() - 1)), elements_refs(q[q.len() - 1].elements@)));
                        lemma_patterns_calls_prefix(variants@, i + 1);
                        assert(kept(start, *node));
                    }
                    return step;
                }
                proof {
                    lemma_absorbed_trans(mid, before, *node, patterns_refs(variants@.subrange(0, i as int)), elements_refs(variants@[i as int].elements@));
                }
                i += 1;
            }
            proof {
                assert(variants@.subrange(0, variants@.len() as int) =~= variants@);
                lemma_absorbed_trans(start, mid, *node, inline_refs(*selector), patterns_refs(variants@));
            }
            Ok(())
        }
    }
}

/// Process the pattern elements.
pub fn process_pattern_elements(elements: &Vec<PatternElement>, node: &mut LocalizationNode) -> (r: Result<(), BindingError>)
    requires
        old(node).wf(),
    ensures
        r is Ok <==> !elements_refs(elements@).2,
        r matches Err(e) ==> e is UnsupportedFunction,
        r is Ok ==> absorbed(*old(node), *final(node), elements_refs(elements@)),
        kept(*old(node), *final(node)),
    decreases elements@,
{
    let ghost start = *node;
    let mut i: usize = 0;
    proof {
        assert(elements@.subrange(0, 0) =~= Seq::<PatternElement>::empty());
        lemma_absorbed_nothing(start);
    }
    while i < elements.len()
        invariant
            i <= elements.len(),
            !elements_refs(elements@.subrange(0, i as int)).2,
            absorbed(start, *node, elements_refs(elements@.subrange(0, i as int))),
            kept(start, *node),
            start == *old(node),
        decreases elements.len() - i,
    {
        let ghost before = *node;
        proof {
            assert(elements@.subrange(0, i + 1).subrange(0, i as int) =~= elements@.subrange(0, i as int));
        }
        let step = match &elements[i] {
            PatternElement::Placeable { expression } => {
                proof {
                    assert(decreases_to!(elements@ => elements@[i as int]));
                }
                process_expression(expression, node)
            }
            _ => {
                proof {
                    lemma_absorbed_nothing(before);
                }
                Ok(())
            }
        };
        if step.is_err() {
            proof {
                assert(element_refs(elements@[i as int]).2);
                let q = elements@.subrange(0, i + 1);
                assert(q[q.len() - 1] == elements@[i as int]);
                assert(elements_refs(q) == merge(elements_refs(q.subrange(0, q.len() - 1)), element_refs(q[q.len() - 1])));
                lemma_elements_calls_prefix(elements@, i + 1);
                assert(kept(start, *node));
            }
            return step;
        }
        proof {
            lemma_absorbed_trans(start, before, *node, elements_refs(elements@.subrange(0, i as int)), element_refs(elements@[i as int]));
        }
        i += 1;
    }
    proof {
        assert(elements@.subrange(0, elements@.len() as int) =~= elements@);
    }
    Ok(())
}

/// A function call in a prefix is a function call in the whole.
proof fn lemma_elements_calls_prefix(els: Seq<PatternElement>, i: int)
    requires
        0 <= i <= els.len(),
        elements_refs(els.subrange(0, i)).2,
    ensures
        elements_refs(els).2,
    decreases els.len() - i,
{
    if i < els.len() {
        let q = els.subrange(0, i + 1);
        assert(q.subrange(0, i) =~= els.subrange(0, i));
        lemma_elements_calls_prefix(els, i + 1);
    } else {
        assert(els.subrange(0, i) =~= els);
    }
}

/// A function call in a prefix is a function call in the whole.
proof fn lemma_patterns_calls_prefix(ps: Seq<Pattern>, i: int)
    requires
        0 <= i <= ps.len(),
        patterns_refs(ps.subrange(0, i)).2,
    ensures
        patterns_refs(ps).2,
    decreases ps.len() - i,
{
    if i < ps.len() {
        let q = ps.subrange(0, i + 1);
        assert(q.subrange(0, i) =~= ps.subrange(0, i));
        lemma_patterns_calls_prefix(ps, i + 1);
    } else {
        assert(ps.subrange(0, i) =~= ps);
    }
}

/// The node that an entry gives rise to, if any: its name, what its value
/// refers to, and whether it is a term. Messages without a value give none.
pub open spec fn entry_node(e: Entry) -> Option<(Seq<char>, Refs, bool)> {
    match e {
        Entry::Message { id, value: Some(p) } => Some((id@, elements_refs(p.elements@), false)),
        Entry::Term { id, pattern } => Some((id@, elements_refs(pattern.elements@), true)),
        _ => None,
    }
}

/// The nodes that a sequence of entries gives rise to, in order.
pub open spec fn entry_nodes(entries: Seq<Entry>) -> Seq<(Seq<char>, Refs, bool)>
    decreases entries.len(),
{
    if entries.len() == 0 {
        Seq::empty()
    } else {
        let prefix = entry_nodes(entries.subrange(0, entries.len() - 1));
        match entry_node(entries.last()) {
            Some(x) => prefix.push(x),
            None => prefix,
        }
    }
}

/// No value of a message or term calls a function.
pub open spec fn calls_no_function(entries: Seq<Entry>) -> bool {
    forall|i: int| 0 <= i < entries.len() ==> match #[trigger] entry_node(entries[i]) {
        Some(x) => !x.1.2,
        None => true,
    }
}

/// `n` is the node of category `category` described by `x`.
pub open spec fn node_matches(n: LocalizationNode, category: Seq<char>, x: (Seq<char>, Refs, bool)) -> bool {
    &&& n.wf()
    &&& n.category@ == category
    &&& n.name@ == x.0
    &&& n.variable_set() == x.1.0
    &&& n.dependency_set() == x.1.1
    &&& n.term == x.2
}

/// Generate the nodes for the entries of a Fluent resource: one for each
/// message with a value and one for each term. A function call in a value
/// is not supported.
pub fn generate_nodes_for_resource(parent: &str, resource: &Vec<Entry>) -> (r: Result<Vec<LocalizationNode>, BindingError>)
    ensures
        r is Ok <==> calls_no_function(resource@),
        r matches Err(e) ==> e is UnsupportedFunction,
        r matches Ok(nodes) ==> {
            &&& nodes@.len() == entry_nodes(resource@).len()
            &&& forall|i: int| 0 <= i < nodes@.len() ==> node_matches(#[trigger] nodes@[i], parent@, entry_nodes(resource@)[i])
        },
{
    let mut r: Vec<LocalizationNode> = Vec::new();
    let mut i: usize = 0;
    while i < resource.len()
        invariant
            i <= resource.len(),
            calls_no_function(resource@.subrange(0, i as int)),
            r@.len() == entry_nodes(resource@.subrange(0, i as int)).len(),
            forall|k: int| 0 <= k < r@.len() ==> node_matches(#[trigger] r@[k], parent@, entry_nodes(resource@.subrange(0, i as int))[k]),
        decreases resource.len() - i,
    {
        let ghost prefix = resource@.subrange(0, i as int);
        let ghost next = resource@.subrange(0, i + 1);
        proof {
            assert(next.subrange(0, next.len() - 1) =~= prefix);
            assert(next.last() == resource@[i as int]);
        }
        match &resource[i] {
            Entry::Message { id, value: Some(pattern) } => {
                let mut node = LocalizationNode::new(parent, id.as_str(), false);
                let step = process_pattern_elements(&pattern.elements, &mut node);
                if let Err(e) = step {
                    proof {
                        assert(entry_node(resource@[i as int]) matches Some(x) && x.1.2);
                    }
                    return Err(e);
                }
                proof {
                    assert(node.variable_set() =~= elements_refs(pattern.elements@).0);
                    assert(node.dependency_set() =~= elements_refs(pattern.elements@).1);
                }
                r.push(node);
            }
            Entry::Term { id, pattern } => {
                let mut node = LocalizationNode::new(parent, id.as_str(), true);
                let step = process_pattern_elements(&pattern.elements, &mut node);
                if let Err(e) = step {
                    proof {
                        assert(entry_node(resource@[i as int]) matches Some(x) && x.1.2);
                    }
                    return Err(e);
                }
                proof {
                    assert(node.variable_set() =~= elements_refs(pattern.elements@).0);
                    assert(node.dependency_set() =~= elements_refs(pattern.elements@).1);
                }
                r.push(node);
            }
            _ => {}
        }
        proof {
            assert forall|k: int| 0 <= k < next.len() implies match #[trigger] entry_node(next[k]) {
                Some(x) => !x.1.2,
                None => true,
            } by {
                if k < i {
                    assert(next[k] == prefix[k]);
                }
            }
        }
        i += 1;
    }
    assert(resource@.subrange(0, resource@.len() as int) =~= resource@);
    Ok(r)
}

/// A variable reference refers to exactly its identifier, as written, and
/// to nothing else; a message or term reference depends on exactly the
/// identifier it names.
pub proof fn lemma_references_are_verbatim(id: String)
    ensures
        inline_refs(InlineExpression::VariableReference { id }).0 == set![id@],
        inline_refs(InlineExpression::VariableReference { id }).1 == Set::<Seq<char>>::empty(),
        !inline_refs(InlineExpression::VariableReference { id }).2,
        inline_refs(InlineExpression::MessageReference { id }).1 == set![id@],
        inline_refs(InlineExpression::MessageReference { id }).0 == Set::<Seq<char>>::empty(),
        inline_refs(InlineExpression::TermReference { id }).1 == set![id@],
        inline_refs(InlineExpression::TermReference { id }).0 == Set::<Seq<char>>::empty(),
{
}

} // verus!
