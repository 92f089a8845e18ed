//! Resolution of the references between localization nodes: every message
//! and term ends up reading the variables of everything it depends on,
//! directly or through other messages and terms.

use vstd::prelude::*;
use crate::depgraph::{Graph, reaches, closed, acyclic, has_cycle, eliminate, lemma_edge_reaches, lemma_reaches_trans, lemma_reaches_first_step, lemma_reaches_last_step, lemma_eliminate_keeps_cycle, is_path, step};
use crate::localization::{LocalizationNode, BindingError, Entry, Refs, entry_nodes, calls_no_function, node_matches, generate_nodes_for_resource};
use crate::names::{distinct, name_set, views, contains_name, clone_names, union_names, without_name};
use crate::text::{chars_of, replace_char, replace_char_in, unicode_lowercase, to_lowercase, lex_le, lex_le_exec, lemma_lex_le_total, lemma_lex_le_trans};

verus! {

/// No two nodes share a name.
pub open spec fn distinct_node_names(s: Seq<LocalizationNode>) -> bool {
    forall|i: int, j: int| 0 <= i < s.len() && 0 <= j < s.len() && i != j ==> s[i].name@ != s[j].name@
}

/// Every node is well formed.
pub open spec fn all_wf(s: Seq<LocalizationNode>) -> bool {
    forall|i: int| 0 <= i < s.len() ==> #[trigger] s[i].wf()
}

/// Some node is called `x`.
pub open spec fn has_node(s: Seq<LocalizationNode>, x: Seq<char>) -> bool {
    exists|i: int| 0 <= i < s.len() && #[trigger] s[i].name@ == x
}

/// The position of the node called `x`.
pub open spec fn index_of(s: Seq<LocalizationNode>, x: Seq<char>) -> int {
    choose|i: int| 0 <= i < s.len() && #[trigger] s[i].name@ == x
}

/// The dependency graph of a sequence of nodes, keyed by node name.
pub open spec fn dep_graph(s: Seq<LocalizationNode>) -> Graph<Seq<char>> {
    Map::new(|x: Seq<char>| has_node(s, x), |x: Seq<char>| s[index_of(s, x)].dependency_set())
}

/// The variables each node reads, keyed by node name.
pub open spec fn var_map(s: Seq<LocalizationNode>) -> Map<Seq<char>, Set<Seq<char>>> {
    Map::new(|x: Seq<char>| has_node(s, x), |x: Seq<char>| s[index_of(s, x)].variable_set())
}

/// The variables read by `n` itself and by every node that `n` reaches in `g`.
pub open spec fn closure_vars(g: Graph<Seq<char>>, vars: Map<Seq<char>, Set<Seq<char>>>, n: Seq<char>) -> Set<Seq<char>> {
    Set::new(|v: Seq<char>|
        (g.dom().contains(n) && vars[n].contains(v))
        || exists|m: Seq<char>| #[trigger] reaches(g, n, m) && g.dom().contains(m) && vars[m].contains(v))
}

/// Every name that some node depends on.
pub open spec fn all_dependencies(s: Seq<LocalizationNode>) -> Set<Seq<char>>
    decreases s.len(),
{
    if s.len() == 0 {
        Set::empty()
    } else {
        all_dependencies(s.subrange(0, s.len() - 1)).union(s.last().dependency_set())
    }
}

proof fn lemma_all_dependencies(s: Seq<LocalizationNode>)
    ensures
        all_dependencies(s).finite(),
        forall|x: Seq<char>| all_dependencies(s).contains(x) <==> exists|i: int| 0 <= i < s.len() && #[trigger] s[i].dependency_set().contains(x),
    decreases s.len(),
{
    if s.len() > 0 {
        let p = s.subrange(0, s.len() - 1);
        lemma_all_dependencies(p);
        assert(s.last().dependency_set().finite());
        assert forall|x: Seq<char>| all_dependencies(s).contains(x) <==> exists|i: int| 0 <= i < s.len() && #[trigger] s[i].dependency_set().contains(x) by {
            if all_dependencies(s).contains(x) {
                if all_dependencies(p).contains(x) {
                    let i = choose|i: int| 0 <= i < p.len() && #[trigger] p[i].dependency_set().contains(x);
                    assert(s[i] == p[i]);
                } else {
                    assert(s[s.len() - 1].dependency_set().contains(x));
                }
            }
            if exists|i: int| 0 <= i < s.len() && #[trigger] s[i].dependency_set().contains(x) {
                let i = choose|i: int| 0 <= i < s.len() && #[trigger] s[i].dependency_set().contains(x);
                if i < s.len() - 1 {
                    assert(p[i] == s[i]);
                    assert(p[i].dependency_set().contains(x));
                }
            }
        }
    }
}

/// With distinct names, the node called like the `i`-th node is the `i`-th node.
proof fn lemma_index_of(s: Seq<LocalizationNode>, i: int)
    requires
        distinct_node_names(s),
        0 <= i < s.len(),
    ensures
        has_node(s, s[i].name@),
        index_of(s, s[i].name@) == i,
        dep_graph(s)[s[i].name@] == s[i].dependency_set(),
        var_map(s)[s[i].name@] == s[i].variable_set(),
{
    assert(has_node(s, s[i].name@));
}

/// `b` is `a` after the elimination of the dependency `c`, whose variables
/// are `vc` and whose dependencies are `dc`.
pub open spec fn stepped(a: LocalizationNode, b: LocalizationNode, c: Seq<char>, vc: Set<Seq<char>>, dc: Set<Seq<char>>) -> bool {
    &&& b.wf()
    &&& b.name == a.name
    &&& b.category == a.category
    &&& b.term == a.term
    &&& if a.dependency_set().contains(c) {
        &&& b.dependency_set() == a.dependency_set().remove(c).union(dc)
        &&& b.variable_set() == a.variable_set().union(vc)
    } else {
        &&& b.dependency_set() == a.dependency_set()
        &&& b.variable_set() == a.variable_set()
    }
}

/// `cur` keeps the names, categories and kinds of `o`.
pub open spec fn same_shape(o: Seq<LocalizationNode>, cur: Seq<LocalizationNode>) -> bool {
    &&& cur.len() == o.len()
    &&& forall|i: int| #![trigger cur[i]] 0 <= i < o.len() ==> cur[i].name == o[i].name && cur[i].category == o[i].category && cur[i].term == o[i].term
}

/// What holds of the nodes `cur` after the names in `p` have been
/// eliminated, starting from the nodes `o`.
pub open spec fn resolution_inv(o: Seq<LocalizationNode>, cur: Seq<LocalizationNode>, p: Set<Seq<char>>) -> bool {
    let g0 = dep_graph(o);
    let v0 = var_map(o);
    let gt = dep_graph(cur);
    let vt = var_map(cur);
    &&& same_shape(o, cur)
    &&& all_wf(cur)
    &&& distinct_node_names(cur)
    &&& distinct_node_names(o)
    &&& gt.dom() == g0.dom()
    &&& forall|n: Seq<char>, x: Seq<char>| gt.dom().contains(n) && #[trigger] gt[n].contains(x) ==> reaches(g0, n, x)
    &&& forall|n: Seq<char>, v: Seq<char>| gt.dom().contains(n) && #[trigger] vt[n].contains(v) ==> closure_vars(g0, v0, n).contains(v)
    &&& forall|n: Seq<char>, v: Seq<char>| gt.dom().contains(n) && #[trigger] closure_vars(g0, v0, n).contains(v) ==>
        vt[n].contains(v) || exists|x: Seq<char>| #[trigger] gt[n].contains(x) && closure_vars(g0, v0, x).contains(v)
    &&& forall|n: Seq<char>, x: Seq<char>| g0.dom().contains(n) && #[trigger] g0[n].contains(x) ==> gt[n].contains(x) || p.contains(x)
    &&& p.subset_of(g0.dom())
    &&& forall|d: Seq<char>, n: Seq<char>| p.contains(d) && gt.dom().contains(n) ==> !#[trigger] gt[n].contains(d)
    &&& forall|n: Seq<char>, x: Seq<char>| gt.dom().contains(n) && #[trigger] gt[n].contains(x) ==> all_dependencies(o).contains(x)
    &&& has_cycle(g0) ==> has_cycle(gt)
}

proof fn lemma_same_shape_dom(o: Seq<LocalizationNode>, cur: Seq<LocalizationNode>)
    requires
        same_shape(o, cur),
    ensures
        dep_graph(cur).dom() == dep_graph(o).dom(),
        var_map(cur).dom() == dep_graph(o).dom(),
        var_map(o).dom() == dep_graph(o).dom(),
        distinct_node_names(o) ==> distinct_node_names(cur),
{
    assert forall|x: Seq<char>| has_node(cur, x) <==> has_node(o, x) by {
        if has_node(cur, x) {
            let i = choose|i: int| 0 <= i < cur.len() && #[trigger] cur[i].name@ == x;
            assert(o[i].name@ == x);
        }
        if has_node(o, x) {
            let i = choose|i: int| 0 <= i < o.len() && #[trigger] o[i].name@ == x;
            assert(cur[i].name@ == x);
        }
    }
    assert(dep_graph(cur).dom() =~= dep_graph(o).dom());
    assert(var_map(cur).dom() =~= dep_graph(o).dom());
    assert(var_map(o).dom() =~= dep_graph(o).dom());
    if distinct_node_names(o) {
        assert forall|i: int, j: int| 0 <= i < cur.len() && 0 <= j < cur.len() && i != j implies cur[i].name@ != cur[j].name@ by {
            assert(cur[i].name == o[i].name && cur[j].name == o[j].name);
        }
    }
}

/// The start of the resolution: nothing has been eliminated yet.
proof fn lemma_inv_start(o: Seq<LocalizationNode>)
    requires
        distinct_node_names(o),
        all_wf(o),
    ensures
        resolution_inv(o, o, Set::empty()),
{
    let g0 = dep_graph(o);
    let v0 = var_map(o);
    lemma_same_shape_dom(o, o);
    lemma_all_dependencies(o);
    assert forall|n: Seq<char>, x: Seq<char>| g0.dom().contains(n) && #[trigger] g0[n].contains(x) implies reaches(g0, n, x) by {
        lemma_edge_reaches(g0, n, x);
    }
    assert forall|n: Seq<char>, x: Seq<char>| g0.dom().contains(n) && #[trigger] g0[n].contains(x) implies all_dependencies(o).contains(x) by {
        let i = index_of(o, n);
        assert(o[i].dependency_set().contains(x));
    }
    assert forall|n: Seq<char>, v: Seq<char>| g0.dom().contains(n) && #[trigger] closure_vars(g0, v0, n).contains(v) implies
        v0[n].contains(v) || exists|x: Seq<char>| #[trigger] g0[n].contains(x) && closure_vars(g0, v0, x).contains(v) by {
        if !v0[n].contains(v) {
            let m = choose|m: Seq<char>| #[trigger] reaches(g0, n, m) && g0.dom().contains(m) && v0[m].contains(v);
            let d = lemma_reaches_first_step(g0, n, m);
            if d == m {
                assert(closure_vars(g0, v0, d).contains(v));
            } else {
                assert(closure_vars(g0, v0, d).contains(v));
            }
        }
    }
}

/// After a step, the dependency graph is the elimination of `c` from the
/// previous one, and the nodes that depended on `c` read its variables too.
proof fn lemma_step_graph(cur: Seq<LocalizationNode>, new: Seq<LocalizationNode>, c: Seq<char>, ci: int)
    requires
        distinct_node_names(cur),
        0 <= ci < cur.len(),
        cur[ci].name@ == c,
        !cur[ci].dependency_set().contains(c),
        new.len() == cur.len(),
        forall|j: int| 0 <= j < cur.len() ==> #[trigger] stepped(cur[j], new[j], c, cur[ci].variable_set(), cur[ci].dependency_set()),
    ensures
        same_shape(cur, new),
        distinct_node_names(new),
        all_wf(new),
        dep_graph(new) == eliminate(dep_graph(cur), c),
        var_map(new).dom() == dep_graph(cur).dom(),
        forall|n: Seq<char>| #![trigger var_map(new)[n]] dep_graph(cur).dom().contains(n) ==> var_map(new)[n] == if dep_graph(cur)[n].contains(c) {
            var_map(cur)[n].union(var_map(cur)[c])
        } else {
            var_map(cur)[n]
        },
{
    let gt = dep_graph(cur);
    let vt = var_map(cur);
    assert forall|j: int| 0 <= j < cur.len() implies new[j].name == cur[j].name && new[j].category == cur[j].category && new[j].term == cur[j].term by {
        assert(stepped(cur[j], new[j], c, cur[ci].variable_set(), cur[ci].dependency_set()));
    }
    assert forall|j: int| 0 <= j < new.len() implies #[trigger] new[j].wf() by {
        assert(stepped(cur[j], new[j], c, cur[ci].variable_set(), cur[ci].dependency_set()));
    }
    lemma_same_shape_dom(cur, new);
    lemma_index_of(cur, ci);
    let e = eliminate(gt, c);
    assert forall|n: Seq<char>| #[trigger] dep_graph(new).dom().contains(n) implies dep_graph(new)[n] == e[n] && var_map(new)[n] == (if gt[n].contains(c) { vt[n].union(vt[c]) } else { vt[n] }) by {
        let j = index_of(new, n);
        lemma_index_of(new, j);
        lemma_index_of(cur, j);
        assert(stepped(cur[j], new[j], c, cur[ci].variable_set(), cur[ci].dependency_set()));
    }
    assert(dep_graph(new) =~= e);
}

/// One elimination step keeps the resolution invariant.
proof fn lemma_step(o: Seq<LocalizationNode>, cur: Seq<LocalizationNode>, new: Seq<LocalizationNode>, p: Set<Seq<char>>, c: Seq<char>, ci: int, k: int)
    requires
        resolution_inv(o, cur, p),
        0 <= ci < cur.len(),
        cur[ci].name@ == c,
        !cur[ci].dependency_set().contains(c),
        0 <= k < cur.len(),
        cur[k].dependency_set().contains(c),
        new.len() == cur.len(),
        forall|j: int| 0 <= j < cur.len() ==> #[trigger] stepped(cur[j], new[j], c, cur[ci].variable_set(), cur[ci].dependency_set()),
    ensures
        resolution_inv(o, new, p.insert(c)),
        all_dependencies(o).contains(c),
        !p.contains(c),
{
    let g0 = dep_graph(o);
    let v0 = var_map(o);
    let gt = dep_graph(cur);
    let vt = var_map(cur);
    let gn = dep_graph(new);
    let vn = var_map(new);
    let q = p.insert(c);
    lemma_step_graph(cur, new, c, ci);
    lemma_index_of(cur, ci);
    lemma_index_of(cur, k);
    let nk = cur[k].name@;
    assert(gt[nk].contains(c));
    assert(gt.dom().contains(c));
    // same shape with respect to o
    assert forall|i: int| 0 <= i < o.len() implies new[i].name == o[i].name && new[i].category == o[i].category && new[i].term == o[i].term by {
        assert(new[i].name == cur[i].name);
        assert(cur[i].name == o[i].name);
    }
    // edges of the new graph are reachable in the initial one
    assert forall|n: Seq<char>, x: Seq<char>| gn.dom().contains(n) && #[trigger] gn[n].contains(x) implies reaches(g0, n, x) by {
        if gt[n].contains(c) && gt[c].contains(x) {
            assert(reaches(g0, n, c));
            assert(reaches(g0, c, x));
            lemma_reaches_trans(g0, n, c, x);
        } else {
            assert(gt[n].contains(x));
        }
    }
    // the variables read stay within the closure
    assert forall|n: Seq<char>, v: Seq<char>| gn.dom().contains(n) && #[trigger] vn[n].contains(v) implies closure_vars(g0, v0, n).contains(v) by {
        if gt[n].contains(c) && vt[c].contains(v) {
            assert(reaches(g0, n, c));
            assert(closure_vars(g0, v0, c).contains(v));
            if g0.dom().contains(c) && v0[c].contains(v) {
                assert(reaches(g0, n, c) && g0.dom().contains(c) && v0[c].contains(v));
            } else {
                let m = choose|m: Seq<char>| #[trigger] reaches(g0, c, m) && g0.dom().contains(m) && v0[m].contains(v);
                lemma_reaches_trans(g0, n, c, m);
            }
        } else {
            assert(vt[n].contains(v));
        }
    }
    // the closure is still covered
    assert forall|n: Seq<char>, v: Seq<char>| gn.dom().contains(n) && #[trigger] closure_vars(g0, v0, n).contains(v) implies
        vn[n].contains(v) || exists|x: Seq<char>| #[trigger] gn[n].contains(x) && closure_vars(g0, v0, x).contains(v) by {
        if !vt[n].contains(v) {
            let x = choose|x: Seq<char>| #[trigger] gt[n].contains(x) && closure_vars(g0, v0, x).contains(v);
            if x != c {
                assert(gn[n].contains(x));
            } else {
                assert(closure_vars(g0, v0, c).contains(v));
                if !vt[c].contains(v) {
                    let y = choose|y: Seq<char>| #[trigger] gt[c].contains(y) && closure_vars(g0, v0, y).contains(v);
                    assert(gn[n].contains(y));
                }
            }
        }
    }
    // every initial edge is still there or leads to an eliminated name
    assert forall|n: Seq<char>, x: Seq<char>| g0.dom().contains(n) && #[trigger] g0[n].contains(x) implies gn[n].contains(x) || q.contains(x) by {
        if gt[n].contains(x) && x != c {
            assert(gn[n].contains(x));
        }
    }
    // eliminated names are depended on no more
    assert forall|d: Seq<char>, n: Seq<char>| q.contains(d) && gn.dom().contains(n) implies !#[trigger] gn[n].contains(d) by {
        if gn[n].contains(d) {
            if gt[n].contains(c) && gt[c].contains(d) {
                assert(d != c);
            } else {
                assert(gt[n].contains(d));
            }
        }
    }
    // dependencies stay among the initial ones
    assert forall|n: Seq<char>, x: Seq<char>| gn.dom().contains(n) && #[trigger] gn[n].contains(x) implies all_dependencies(o).contains(x) by {
        if gt[n].contains(c) && gt[c].contains(x) {
        } else {
            assert(gt[n].contains(x));
        }
    }
    if has_cycle(g0) {
        lemma_eliminate_keeps_cycle(gt, c);
    }
}

/// When no node depends on anything any more, the initial graph was closed
/// and acyclic, and every node reads exactly the variables of its closure.
proof fn lemma_inv_done(o: Seq<LocalizationNode>, cur: Seq<LocalizationNode>, p: Set<Seq<char>>)
    requires
        resolution_inv(o, cur, p),
        forall|i: int| 0 <= i < cur.len() ==> #[trigger] cur[i].dependencies@.len() == 0,
    ensures
        closed(dep_graph(o)),
        acyclic(dep_graph(o)),
        forall|i: int| 0 <= i < cur.len() ==> #[trigger] cur[i].variable_set() == closure_vars(dep_graph(o), var_map(o), o[i].name@),
{
    let g0 = dep_graph(o);
    let v0 = var_map(o);
    let gt = dep_graph(cur);
    let vt = var_map(cur);
    assert forall|n: Seq<char>, x: Seq<char>| gt.dom().contains(n) implies !gt[n].contains(x) by {
        let i = index_of(cur, n);
        lemma_index_of(cur, i);
        assert(views(cur[i].dependencies@) =~= Seq::<Seq<char>>::empty());
    }
    assert forall|n: Seq<char>, d: Seq<char>| g0.dom().contains(n) && #[trigger] g0[n].contains(d) implies g0.dom().contains(d) by {
        assert(p.contains(d));
    }
    assert forall|n: Seq<char>| !#[trigger] reaches(g0, n, n) by {
        if reaches(g0, n, n) {
            let m = choose|m: Seq<char>| #[trigger] reaches(gt, m, m);
            let d = lemma_reaches_first_step(gt, m, m);
        }
    }
    assert forall|i: int| 0 <= i < cur.len() implies #[trigger] cur[i].variable_set() == closure_vars(g0, v0, o[i].name@) by {
        lemma_index_of(cur, i);
        let n = cur[i].name@;
        assert(n == o[i].name@);
        assert(cur[i].variable_set() =~= closure_vars(g0, v0, n));
    }
}

/// A dependency on a name that no node bears shows the initial graph is not closed.
proof fn lemma_inv_missing(o: Seq<LocalizationNode>, cur: Seq<LocalizationNode>, p: Set<Seq<char>>, k: int, c: Seq<char>)
    requires
        resolution_inv(o, cur, p),
        0 <= k < cur.len(),
        cur[k].dependency_set().contains(c),
        !has_node(cur, c),
    ensures
        exists|n: Seq<char>| dep_graph(o).dom().contains(n) && #[trigger] dep_graph(o)[n].contains(c),
        !dep_graph(o).dom().contains(c),
        !closed(dep_graph(o)),
{
    let g0 = dep_graph(o);
    lemma_index_of(cur, k);
    assert(reaches(g0, cur[k].name@, c));
    let u = lemma_reaches_last_step(g0, cur[k].name@, c);
}

/// A node that depends on itself lies on a cycle of the initial graph.
proof fn lemma_inv_cycle(o: Seq<LocalizationNode>, cur: Seq<LocalizationNode>, p: Set<Seq<char>>, ci: int, c: Seq<char>)
    requires
        resolution_inv(o, cur, p),
        0 <= ci < cur.len(),
        cur[ci].name@ == c,
        cur[ci].dependency_set().contains(c),
    ensures
        reaches(dep_graph(o), c, c),
        !acyclic(dep_graph(o)),
{
    lemma_index_of(cur, ci);
}

/// The first node that still depends on something, if any.
fn first_dependent(nodes: &Vec<LocalizationNode>) -> (r: Option<usize>)
    ensures
        match r {
            Some(k) => k < nodes@.len() && nodes@[k as int].dependencies@.len() > 0,
            None => forall|i: int| 0 <= i < nodes@.len() ==> #[trigger] nodes@[i].dependencies@.len() == 0,
        },
{
    let mut i: usize = 0;
    while i < nodes.len()
        invariant
            i <= nodes@.len(),
            forall|j: int| 0 <= j < i ==> #[trigger] nodes@[j].dependencies@.len() == 0,
        decreases nodes.len() - i,
    {
        if nodes[i].dependencies.len() > 0 {
            return Some(i);
        }
        i += 1;
    }
    None
}

/// The position of the node called `name`, if any.
fn find_node(nodes: &Vec<LocalizationNode>, name: &String) -> (r: Option<usize>)
    ensures
        match r {
            Some(k) => k < nodes@.len() && nodes@[k as int].name@ == name@,
            None => !has_node(nodes@, name@),
        },
{
    let mut i: usize = 0;
    while i < nodes.len()
        invariant
            i <= nodes@.len(),
            forall|j: int| 0 <= j < i ==> #[trigger] nodes@[j].name@ != name@,
        decreases nodes.len() - i,
    {
        if nodes[i].name == *name {
            return Some(i);
        }
        i += 1;
    }
    None
}

/// `node` with the dependency `c` replaced by the dependencies `deps_c` of
/// `c`, and reading the variables `vars_c` of `c` as well.
fn absorb(node: &LocalizationNode, c: &String, vars_c: &Vec<String>, deps_c: &Vec<String>) -> (r: LocalizationNode)
    requires
        node.wf(),
        node.dependency_set().contains(c@),
    ensures
        stepped(*node, r, c@, name_set(vars_c@), name_set(deps_c@)),
{
    let mut dependencies = without_name(&node.dependencies, c);
    union_names(&mut dependencies, deps_c);
    let mut variables = clone_names(&node.variables);
    union_names(&mut variables, vars_c);
    LocalizationNode {
        category: node.category.clone(),
        name: node.name.clone(),
        variables,
        dependencies,
        term: node.term,
    }
}

/// Resolve the references between nodes: each node in turn stops depending
/// on a message or term and takes over its variables and dependencies, until
/// no node depends on anything. Every node then reads the variables of all
/// the messages and terms it reaches.
///
/// The resolution fails when a node depends on a name that no node bears, or
/// when a node depends on itself, directly or not.
pub fn resolve_dependencies(nodes: Vec<LocalizationNode>) -> (r: Result<Vec<LocalizationNode>, BindingError>)
    requires
        distinct_node_names(nodes@),
        all_wf(nodes@),
    ensures
        r is Ok <==> closed(dep_graph(nodes@)) && acyclic(dep_graph(nodes@)),
        r matches Err(e) ==> e is MissingDependency || e is CyclicDependency,
        r matches Err(BindingError::MissingDependency(d)) ==> !dep_graph(nodes@).dom().contains(d@)
            && exists|n: Seq<char>| dep_graph(nodes@).dom().contains(n) && #[trigger] dep_graph(nodes@)[n].contains(d@),
        r matches Err(BindingError::CyclicDependency(c)) ==> reaches(dep_graph(nodes@), c@, c@),
        r matches Ok(res) ==> {
            &&& same_shape(nodes@, res@)
            &&& all_wf(res@)
            &&& forall|i: int| 0 <= i < res@.len() ==> #[trigger] res@[i].dependencies@.len() == 0
            &&& forall|i: int| 0 <= i < res@.len() ==> #[trigger] res@[i].variable_set()
                == closure_vars(dep_graph(nodes@), var_map(nodes@), nodes@[i].name@)
        },
{
    let ghost o = nodes@;
    let ghost mut p: Set<Seq<char>> = Set::empty();
    let mut work = nodes;
    proof {
        lemma_inv_start(o);
        lemma_all_dependencies(o);
    }
    loop
        invariant
            resolution_inv(o, work@, p),
            o == nodes@,
            all_dependencies(o).finite(),
        decreases all_dependencies(o).difference(p).len(),
    {
        let k = match first_dependent(&work) {
            Some(k) => k,
            None => {
                proof {
                    lemma_inv_done(o, work@, p);
                }
                return Ok(work);
            }
        };
        let c = work[k].dependencies[0].clone();
        proof {
            assert(views(work@[k as int].dependencies@)[0] == c@);
            assert(work@[k as int].dependency_set().contains(c@));
        }
        let ci = match find_node(&work, &c) {
            Some(ci) => ci,
            None => {
                proof {
                    lemma_inv_missing(o, work@, p, k as int, c@);
                }
                return Err(BindingError::MissingDependency(c));
            }
        };
        if contains_name(&work[ci].dependencies, &c) {
            proof {
                lemma_inv_cycle(o, work@, p, ci as int, c@);
            }
            return Err(BindingError::CyclicDependency(c));
        }
        let vars_c = clone_names(&work[ci].variables);
        let deps_c = clone_names(&work[ci].dependencies);
        let ghost cur = work@;
        let mut i: usize = 0;
        while i < work.len()
            invariant
                work@.len() == cur.len(),
                i <= cur.len(),
                all_wf(cur),
                0 <= ci < cur.len(),
                vars_c@ == cur[ci as int].variables@,
                deps_c@ == cur[ci as int].dependencies@,
                forall|j: int| 0 <= j < i ==> #[trigger] stepped(cur[j], work@[j], c@, cur[ci as int].variable_set(), cur[ci as int].dependency_set()),
                forall|j: int| i <= j < cur.len() ==> #[trigger] work@[j] == cur[j],
            decreases cur.len() - i,
        {
            if contains_name(&work[i].dependencies, &c) {
                let updated = absorb(&work[i], &c, &vars_c, &deps_c);
                work.set(i, updated);
            } else {
                proof {
                    assert(stepped(cur[i as int], work@[i as int], c@, cur[ci as int].variable_set(), cur[ci as int].dependency_set()));
                }
            }
            i += 1;
        }
        proof {
            lemma_step(o, cur, work@, p, c@, ci as int, k as int);
            let old_rest = all_dependencies(o).difference(p);
            p = p.insert(c@);
            assert(all_dependencies(o).difference(p) =~= old_rest.remove(c@));
        }
    }
}

/// Sanitize a Fluent name into a Rust identifier fragment: dashes become
/// underscores, then the whole is lowercased.
pub fn sanitize_name(unsanitized: &str) -> (r: String)
    ensures
        r@ == unicode_lowercase(replace_char(unsanitized@, '-', '_')),
{
    let replaced = replace_char_in(unsanitized, '-', '_');
    to_lowercase(replaced.as_str())
}

/// `v` is ordered by the lowercase form of its names.
pub open spec fn sorted_by_lowercase(v: Seq<String>) -> bool {
    forall|i: int, j: int| 0 <= i < j < v.len() ==> lex_le(#[trigger] unicode_lowercase(v[i]@), #[trigger] unicode_lowercase(v[j]@))
}

/// `e` is ordered by the keys of its entries.
pub open spec fn keys_sorted(e: Seq<(Vec<char>, String)>) -> bool {
    forall|i: int, j: int| 0 <= i < j < e.len() ==> lex_le(#[trigger] e[i].0@, #[trigger] e[j].0@)
}

/// The entries ordered by their keys: a permutation of `entries` whose keys
/// never decrease.
pub fn sort_by_keys(entries: Vec<(Vec<char>, String)>) -> (r: Vec<(Vec<char>, String)>)
    ensures
        r@.to_multiset() == entries@.to_multiset(),
        keys_sorted(r@),
{
    let ghost all = entries@;
    let mut rest = entries;
    let total: usize = rest.len();
    assert(all.len() == total);
    let mut out: Vec<(Vec<char>, String)> = Vec::new();
    let mut i: usize = 0;
    assert(all.subrange(0, 0) =~= out@);
    assert(all.subrange(0, all.len() as int) =~= all);
    while rest.len() > 0
        invariant
            i <= all.len(),
            all.len() <= usize::MAX,
            rest@ == all.subrange(i as int, all.len() as int),
            keys_sorted(out@),
            out@.to_multiset() == all.subrange(0, i as int).to_multiset(),
        decreases rest.len(),
    {
        let x = rest.remove(0);
        assert(x == all[i as int]);
        assert(rest@ =~= all.subrange(i + 1, all.len() as int));
        let mut p: usize = 0;
        while p < out.len() && lex_le_exec(&out[p].0, &x.0)
            invariant
                p <= out@.len(),
                forall|k: int| 0 <= k < p ==> lex_le(#[trigger] out@[k].0@, x.0@),
            decreases out@.len() - p,
        {
            p += 1;
        }
        let ghost before = out@;
        proof {
            if p < out@.len() {
                lemma_lex_le_total(out@[p as int].0@, x.0@);
            }
        }
        out.insert(p, x);
        proof {
            assert forall|a: int, b: int| 0 <= a < b < out@.len() implies lex_le(#[trigger] out@[a].0@, #[trigger] out@[b].0@) by {
                if b < p {
                    assert(out@[a] == before[a] && out@[b] == before[b]);
                } else if b == p {
                    assert(out@[a] == before[a]);
                } else if a == p {
                    assert(out@[b] == before[b - 1]);
                    if b - 1 > p {
                        assert(lex_le(before[p as int].0@, before[b - 1].0@));
                        lemma_lex_le_trans(x.0@, before[p as int].0@, before[b - 1].0@);
                    }
                } else if a < p {
                    assert(out@[a] == before[a] && out@[b] == before[b - 1]);
                    assert(lex_le(before[a].0@, x.0@));
                    if b - 1 > p {
                        assert(lex_le(before[p as int].0@, before[b - 1].0@));
                        lemma_lex_le_trans(x.0@, before[p as int].0@, before[b - 1].0@);
                    }
                    lemma_lex_le_trans(before[a].0@, x.0@, before[b - 1].0@);
                } else {
                    assert(out@[a] == before[a - 1] && out@[b] == before[b - 1]);
                }
            }
            assert(all.subrange(0, i + 1) =~= all.subrange(0, i as int).push(all[i as int]));
            assert(out@ == before.insert(p as int, all[i as int]));
            vstd::seq_lib::to_multiset_insert(before, p as int, all[i as int]);
            vstd::seq_lib::to_multiset_build(all.subrange(0, i as int), all[i as int]);
        }
        i += 1;
    }
    assert(all.subrange(0, all.len() as int) =~= all);
    out
}

proof fn lemma_multiset_map<A, B>(a: Seq<A>, b: Seq<A>, f: spec_fn(A) -> B)
    requires
        a.to_multiset() == b.to_multiset(),
    ensures
        a.map_values(f).to_multiset() == b.map_values(f).to_multiset(),
    decreases a.len(),
{
    broadcast use vstd::multiset::group_multiset_axioms;
    vstd::seq_lib::to_multiset_len(a);
    vstd::seq_lib::to_multiset_len(b);
    if a.len() == 0 {
        assert(a.map_values(f) =~= Seq::<B>::empty());
        assert(b.map_values(f) =~= Seq::<B>::empty());
    } else {
        let x = a.last();
        let rest = a.drop_last();
        assert(a =~= rest.push(x));
        vstd::seq_lib::to_multiset_build(rest, x);
        vstd::seq_lib::to_multiset_contains(b, x);
        assert(b.to_multiset().count(x) > 0);
        let j = choose|j: int| 0 <= j < b.len() && b[j] == x;
        let others = b.remove(j);
        assert(b =~= others.insert(j, x));
        vstd::seq_lib::to_multiset_insert(others, j, x);
        assert(a.to_multiset() == rest.to_multiset().insert(x));
        assert(b.to_multiset() == others.to_multiset().insert(x));
        assert forall|v: A| rest.to_multiset().count(v) == others.to_multiset().count(v) by {
            assert(rest.to_multiset().insert(x).count(v) == others.to_multiset().insert(x).count(v));
        }
        assert(rest.to_multiset() =~= others.to_multiset());
        lemma_multiset_map(rest, others, f);
        assert(a.map_values(f) =~= rest.map_values(f).push(f(x)));
        vstd::seq_lib::to_multiset_build(rest.map_values(f), f(x));
        assert(b.map_values(f) =~= others.map_values(f).insert(j, f(x)));
        vstd::seq_lib::to_multiset_insert(others.map_values(f), j, f(x));
    }
}

/// The names of `v`, ordered by their lowercase form.
pub fn sort_by_lowercase(v: &Vec<String>) -> (r: Vec<String>)
    ensures
        r@.to_multiset() == v@.to_multiset(),
        sorted_by_lowercase(r@),
{
    let mut entries: Vec<(Vec<char>, String)> = Vec::new();
    let mut i: usize = 0;
    while i < v.len()
        invariant
            i <= v.len(),
            entries@.len() == i,
            forall|k: int| 0 <= k < i ==> (#[trigger] entries@[k]).1 == v@[k],
            forall|k: int| 0 <= k < i ==> (#[trigger] entries@[k]).0@ == unicode_lowercase(entries@[k].1@),
        decreases v.len() - i,
    {
        let key = to_lowercase(v[i].as_str());
        entries.push((chars_of(key.as_str()), v[i].clone()));
        i += 1;
    }
    let ghost e = entries@;
    let sorted = sort_by_keys(entries);
    proof {
        assert forall|k: int| 0 <= k < sorted@.len() implies (#[trigger] sorted@[k]).0@ == unicode_lowercase(sorted@[k].1@) by {
            vstd::seq_lib::to_multiset_contains(sorted@, sorted@[k]);
            vstd::seq_lib::to_multiset_contains(e, sorted@[k]);
            assert(sorted@.contains(sorted@[k]));
            let j = choose|j: int| 0 <= j < e.len() && e[j] == sorted@[k];
        }
    }
    let mut out: Vec<String> = Vec::new();
    let mut k: usize = 0;
    while k < sorted.len()
        invariant
            k <= sorted@.len(),
            out@ == sorted@.take(k as int).map_values(|p: (Vec<char>, String)| p.1),
        decreases sorted.len() - k,
    {
        out.push(sorted[k].1.clone());
        assert(sorted@.take(k + 1).map_values(|p: (Vec<char>, String)| p.1)
            =~= sorted@.take(k as int).map_values(|p: (Vec<char>, String)| p.1).push(sorted@[k as int].1));
        k += 1;
    }
    proof {
        assert(sorted@.take(sorted@.len() as int) =~= sorted@);
        assert(v@ =~= e.map_values(|p: (Vec<char>, String)| p.1));
        lemma_multiset_map(sorted@, e, |p: (Vec<char>, String)| p.1);
        assert forall|a: int, b: int| 0 <= a < b < out@.len() implies lex_le(#[trigger] unicode_lowercase(out@[a]@),
            #[trigger] unicode_lowercase(out@[b]@)) by {
            assert(out@[a] == sorted@[a].1 && out@[b] == sorted@[b].1);
            assert(lex_le(sorted@[a].0@, sorted@[b].0@));
        }
    }
    out
}

/// The letters of the generic parameters of a binding function, in order.
pub open spec fn generic_letters() -> Seq<char> {
    seq!['A', 'B', 'C', 'D', 'E', 'F', 'G', 'H', 'I', 'J', 'K', 'L', 'M',
         'N', 'O', 'P', 'Q', 'R', 'S', 'T', 'U', 'V', 'W', 'X', 'Y', 'Z']
}

/// The sanitized form of a Fluent name.
pub open spec fn sanitized(s: Seq<char>) -> Seq<char> {
    unicode_lowercase(replace_char(s, '-', '_'))
}

/// The identifier of the binding function for message `name` of `category`.
pub open spec fn binding_ident(category: Seq<char>, name: Seq<char>) -> Seq<char> {
    sanitized(category) + seq!['_'] + sanitized(name)
}

/// A localization binding function to generate: a method of the localizer
/// named `ident` that formats message `name`, taking one argument per
/// variable, in order, each of its own generic type.
pub struct BindingFunction {
    pub ident: String,
    pub name: String,
    /// The Fluent variables, ordered by their lowercase form.
    pub variables: Vec<String>,
    /// The argument identifiers, one for each variable.
    pub arguments: Vec<String>,
    /// The generic type parameters, one for each variable.
    pub generics: Vec<char>,
}

/// `f` is the binding function of a message of `category` called `name`
/// that reads the variables `vars`.
pub open spec fn binding_matches(f: BindingFunction, category: Seq<char>, name: Seq<char>, vars: Set<Seq<char>>) -> bool {
    &&& f.ident@ == binding_ident(category, name)
    &&& f.name@ == name
    &&& distinct(f.variables@)
    &&& name_set(f.variables@) == vars
    &&& sorted_by_lowercase(f.variables@)
    &&& f.arguments@.len() == f.variables@.len()
    &&& forall|i: int| 0 <= i < f.variables@.len() ==> #[trigger] f.arguments@[i]@ == sanitized(f.variables@[i]@)
    &&& f.generics@ == generic_letters().take(f.variables@.len() as int)
}

proof fn lemma_multiset_distinct(a: Seq<String>, b: Seq<String>)
    requires
        a.to_multiset() == b.to_multiset(),
        distinct(a),
    ensures
        distinct(b),
        name_set(b) == name_set(a),
{
    broadcast use vstd::seq_lib::to_multiset_contains;
    vstd::seq_lib::to_multiset_len(a);
    vstd::seq_lib::to_multiset_len(b);
    assert forall|x: String| b.contains(x) <==> a.contains(x) by {
        vstd::seq_lib::to_multiset_contains(a, x);
        vstd::seq_lib::to_multiset_contains(b, x);
    }
    assert forall|i: int, j: int| 0 <= i < views(b).len() && 0 <= j < views(b).len() && i != j implies views(b)[i] != views(b)[j] by {
        // Strings with equal views are equal: distinct views in a give distinct strings.
        if views(b)[i] == views(b)[j] {
            assert(b.contains(b[i]) && b.contains(b[j]));
            let ai = choose|k: int| 0 <= k < a.len() && a[k] == b[i];
            let aj = choose|k: int| 0 <= k < a.len() && a[k] == b[j];
            assert(views(a)[ai] == views(a)[aj]);
            if b[i] == b[j] {
                assert(b.to_multiset().count(b[i]) >= 2) by {
                    let c = b.remove(i);
                    vstd::seq_lib::to_multiset_remove(b, i);
                    assert(c.contains(b[j])) by {
                        if j < i { assert(c[j] == b[j]); } else { assert(c[j - 1] == b[j]); }
                    }
                    vstd::seq_lib::to_multiset_contains(c, b[j]);
                }
                assert(a.to_multiset().count(a[ai]) <= 1) by {
                    lemma_distinct_count(a, ai);
                }
            }
        }
    }
    assert(name_set(b) =~= name_set(a)) by {
        assert forall|v: Seq<char>| name_set(b).contains(v) <==> name_set(a).contains(v) by {
            if name_set(b).contains(v) {
                let i = choose|i: int| 0 <= i < views(b).len() && views(b)[i] == v;
                assert(b.contains(b[i]));
                let k = choose|k: int| 0 <= k < a.len() && a[k] == b[i];
                assert(views(a)[k] == v);
            }
            if name_set(a).contains(v) {
                let i = choose|i: int| 0 <= i < views(a).len() && views(a)[i] == v;
                assert(a.contains(a[i]));
                let k = choose|k: int| 0 <= k < b.len() && b[k] == a[i];
                assert(views(b)[k] == v);
            }
        }
    }
}

proof fn lemma_distinct_count(a: Seq<String>, i: int)
    requires
        distinct(a),
        0 <= i < a.len(),
    ensures
        a.to_multiset().count(a[i]) <= 1,
    decreases a.len(),
{
    vstd::seq_lib::to_multiset_remove(a, i);
    let c = a.remove(i);
    assert(!c.contains(a[i])) by {
        if c.contains(a[i]) {
            let k = choose|k: int| 0 <= k < c.len() && c[k] == a[i];
            if k < i {
                assert(views(a)[k] == views(a)[i]);
            } else {
                assert(views(a)[k + 1] == views(a)[i]);
            }
        }
    }
    vstd::seq_lib::to_multiset_contains(c, a[i]);
}

fn generic_letter(i: usize) -> (c: char)
    requires
        i < 26,
    ensures
        c == generic_letters()[i as int],
{
    let letters = "ABCDEFGHIJKLMNOPQRSTUVWXYZ";
    proof {
        reveal_strlit("ABCDEFGHIJKLMNOPQRSTUVWXYZ");
        assert(letters@ =~= generic_letters());
    }
    letters.get_char(i)
}

/// The binding function of a message node. A message can read at most as
/// many variables as there are generic parameter letters.
pub fn binding_function(node: &LocalizationNode) -> (r: Result<BindingFunction, BindingError>)
    requires
        node.wf(),
    ensures
        r is Ok <==> node.variables@.len() <= 26,
        r matches Err(e) ==> e == BindingError::TooManyVariables(node.name),
        r matches Ok(f) ==> binding_matches(f, node.category@, node.name@, node.variable_set()),
{
    if node.variables.len() > 26 {
        return Err(BindingError::TooManyVariables(node.name.clone()));
    }
    let category = sanitize_name(node.category.as_str());
    let name = sanitize_name(node.name.as_str());
    let mut ident = category;
    ident.append("_");
    ident.append(name.as_str());
    proof {
        reveal_strlit("_");
    }
    let variables = sort_by_lowercase(&node.variables);
    proof {
        lemma_multiset_distinct(node.variables@, variables@);
        vstd::seq_lib::to_multiset_len(node.variables@);
        vstd::seq_lib::to_multiset_len(variables@);
    }
    let mut arguments: Vec<String> = Vec::new();
    let mut generics: Vec<char> = Vec::new();
    let mut i: usize = 0;
    while i < variables.len()
        invariant
            i <= variables@.len(),
            variables@.len() <= 26,
            arguments@.len() == i,
            forall|k: int| 0 <= k < i ==> #[trigger] arguments@[k]@ == sanitized(variables@[k]@),
            generics@ == generic_letters().take(i as int),
        decreases variables.len() - i,
    {
        arguments.push(sanitize_name(variables[i].as_str()));
        generics.push(generic_letter(i));
        i += 1;
        assert(generics@ =~= generic_letters().take(i as int));
    }
    let f = BindingFunction { ident, name: node.name.clone(), variables, arguments, generics };
    assert(f.ident@ =~= binding_ident(node.category@, node.name@));
    assert(f.name@ == node.name@);
    assert(distinct(f.variables@));
    assert(name_set(f.variables@) == node.variable_set());
    assert(sorted_by_lowercase(f.variables@));
    assert(f.generics@ == generic_letters().take(f.variables@.len() as int));
    Ok(f)
}

/// A Fluent resource of a localization category (the file it was read from).
pub struct LocalizationResource {
    pub name: String,
    pub entries: Vec<Entry>,
}

/// A node described by plain values: its category, then its name, what it
/// refers to, and whether it is a term.
pub type NodeModel = (Seq<char>, (Seq<char>, Refs, bool));

/// The nodes of a sequence of resources, in order, each tagged with the name
/// of its resource as category.
pub open spec fn tagged_nodes(rs: Seq<LocalizationResource>) -> Seq<NodeModel>
    decreases rs.len(),
{
    if rs.len() == 0 {
        Seq::empty()
    } else {
        let last = rs.last();
        tagged_nodes(rs.subrange(0, rs.len() - 1)) + entry_nodes(last.entries@).map_values(|x: (Seq<char>, Refs, bool)| (last.name@, x))
    }
}

/// No value of any resource calls a function.
pub open spec fn resources_call_no_function(rs: Seq<LocalizationResource>) -> bool {
    forall|i: int| 0 <= i < rs.len() ==> #[trigger] calls_no_function(rs[i].entries@)
}

/// Generate the nodes of every resource, in order.
pub fn collect_nodes(resources: &Vec<LocalizationResource>) -> (r: Result<Vec<LocalizationNode>, BindingError>)
    ensures
        r is Ok <==> resources_call_no_function(resources@),
        r matches Err(e) ==> e is UnsupportedFunction,
        r matches Ok(ns) ==> {
            &&& ns@.len() == tagged_nodes(resources@).len()
            &&& forall|i: int| 0 <= i < ns@.len() ==> node_matches(#[trigger] ns@[i], tagged_nodes(resources@)[i].0, tagged_nodes(resources@)[i].1)
        },
{
    let mut all: Vec<LocalizationNode> = Vec::new();
    let mut i: usize = 0;
    while i < resources.len()
        invariant
            i <= resources@.len(),
            resources_call_no_function(resources@.subrange(0, i as int)),
            all@.len() == tagged_nodes(resources@.subrange(0, i as int)).len(),
            forall|k: int| 0 <= k < all@.len() ==> node_matches(#[trigger] all@[k], tagged_nodes(resources@.subrange(0, i as int))[k].0, tagged_nodes(resources@.subrange(0, i as int))[k].1),
        decreases resources.len() - i,
    {
        let ghost prefix = resources@.subrange(0, i as int);
        let ghost next = resources@.subrange(0, i + 1);
        let resource = &resources[i];
        let generated = generate_nodes_for_resource(resource.name.as_str(), &resource.entries);
        let mut nodes = match generated {
            Ok(nodes) => nodes,
            Err(e) => {
                proof {
                    assert(!resources_call_no_function(resources@)) by {
                        assert(!calls_no_function(resources@[i as int].entries@));
                    }
                }
                return Err(e);
            }
        };
        let ghost before = all@;
        let ghost generated_nodes = nodes@;
        all.append(&mut nodes);
        proof {
            assert(next.subrange(0, next.len() - 1) =~= prefix);
            assert(next.last() == resources@[i as int]);
            let last = next.last();
            let added = entry_nodes(last.entries@).map_values(|x: (Seq<char>, Refs, bool)| (last.name@, x));
            assert(tagged_nodes(next) == tagged_nodes(prefix) + added);
            assert forall|k: int| 0 <= k < all@.len() implies node_matches(#[trigger] all@[k], tagged_nodes(next)[k].0, tagged_nodes(next)[k].1) by {
                if k < before.len() {
                    assert(all@[k] == before[k]);
                } else {
                    assert(all@[k] == generated_nodes[k - before.len()]);
                }
            }
            assert forall|k: int| 0 <= k < next.len() implies #[trigger] calls_no_function(next[k].entries@) by {
                if k < i {
                    assert(next[k] == prefix[k]);
                }
            }
        }
        i += 1;
    }
    assert(resources@.subrange(0, resources@.len() as int) =~= resources@);
    Ok(all)
}

/// `s[j]` is the last node of `s` with its name.
pub open spec fn is_last(s: Seq<LocalizationNode>, j: int) -> bool {
    &&& 0 <= j < s.len()
    &&& forall|k: int| j < k < s.len() ==> #[trigger] s[k].name@ != s[j].name@
}

/// Keep, for each name, the last node that bears it.
/// `x` is the last node of `s` with its name.
pub open spec fn is_last_of(s: Seq<LocalizationNode>, x: LocalizationNode) -> bool {
    exists|j: int| #![trigger s[j]] is_last(s, j) && x == s[j]
}

/// `r` holds, once each, the last node of `s` for every name in `s`.
pub open spec fn indexed(s: Seq<LocalizationNode>, r: Seq<LocalizationNode>) -> bool {
    &&& distinct_node_names(r)
    &&& forall|k: int| 0 <= k < r.len() ==> #[trigger] is_last_of(s, r[k])
    &&& forall|j: int| #![trigger s[j]] is_last(s, j) ==> exists|k: int| #![trigger r[k]] 0 <= k < r.len() && r[k] == s[j]
}

proof fn lemma_indexed_done(input: Seq<LocalizationNode>, out: Seq<LocalizationNode>, src: Seq<int>)
    requires
        distinct_node_names(out),
        src.len() == out.len(),
        forall|k: int| 0 <= k < out.len() ==> 0 <= #[trigger] src[k] && is_last(input, src[k]) && out[k] == input[src[k]],
        forall|j: int| 0 <= j && is_last(input, j) ==> exists|k: int| 0 <= k < out.len() && #[trigger] src[k] == j,
    ensures
        indexed(input, out),
{
    assert forall|k: int| 0 <= k < out.len() implies #[trigger] is_last_of(input, out[k]) by {
        assert(0 <= src[k]);
        let j = src[k];
        assert(is_last(input, j) && out[k] == input[j]);
    }
    assert forall|j: int| #![trigger input[j]] is_last(input, j) implies exists|k: int| #![trigger out[k]] 0 <= k < out.len() && out[k] == input[j] by {
        let k = choose|k: int| 0 <= k < out.len() && #[trigger] src[k] == j;
        assert(out[k] == input[j]);
    }
}

/// Keep, for each name, the last node that bears it.
pub fn index_nodes(nodes: Vec<LocalizationNode>) -> (r: Vec<LocalizationNode>)
    ensures
        indexed(nodes@, r@),
{
    let ghost input = nodes@;
    let ghost mut src: Seq<int> = Seq::empty();
    let mut rest = nodes;
    let mut out: Vec<LocalizationNode> = Vec::new();
    while rest.len() > 0
        invariant
            rest@ == input.subrange(0, rest@.len() as int),
            rest@.len() <= input.len(),
            input == nodes@,
            distinct_node_names(out@),
            src.len() == out@.len(),
            forall|k: int| 0 <= k < out@.len() ==> rest@.len() <= #[trigger] src[k] && is_last(input, src[k]) && out@[k] == input[src[k]],
            forall|j: int| rest@.len() <= j && is_last(input, j) ==> exists|k: int| 0 <= k < out@.len() && #[trigger] src[k] == j,
            forall|j: int| rest@.len() <= j < input.len() ==> has_node(out@, #[trigger] input[j].name@),
        decreases rest@.len(),
    {
        let ghost m = rest@.len() - 1;
        let x = rest.pop().unwrap();
        proof {
            assert(x == input[m]);
            assert(rest@ =~= input.subrange(0, m));
        }
        let found = find_node(&out, &x.name);
        if found.is_none() {
            let ghost before = out@;
            let ghost before_src = src;
            proof {
                assert forall|k: int| m < k < input.len() implies #[trigger] input[k].name@ != input[m].name@ by {
                    if input[k].name@ == input[m].name@ {
                        assert(has_node(before, input[k].name@));
                    }
                }
                assert(is_last(input, m));
            }
            out.push(x);
            proof {
                src = src.push(m);
                assert forall|a: int, b: int| 0 <= a < out@.len() && 0 <= b < out@.len() && a != b implies out@[a].name@ != out@[b].name@ by {
                    if a == before.len() {
                        assert(out@[b] == before[b]);
                    } else if b == before.len() {
                        assert(out@[a] == before[a]);
                    } else {
                        assert(out@[a] == before[a] && out@[b] == before[b]);
                    }
                }
                assert forall|k: int| 0 <= k < out@.len() implies m <= #[trigger] src[k] && is_last(input, src[k]) && out@[k] == input[src[k]] by {
                    if k < before.len() {
                        assert(src[k] == before_src[k]);
                        assert(out@[k] == before[k]);
                    }
                }
                assert forall|j: int| m <= j && is_last(input, j) implies exists|k: int| 0 <= k < out@.len() && #[trigger] src[k] == j by {
                    if j == m {
                        assert(src[before.len() as int] == j);
                    } else {
                        let k = choose|k: int| 0 <= k < before.len() && #[trigger] before_src[k] == j;
                        assert(src[k] == j);
                    }
                }
                assert forall|j: int| m <= j < input.len() implies has_node(out@, #[trigger] input[j].name@) by {
                    if j == m {
                        assert(out@[before.len() as int].name@ == input[j].name@);
                    } else {
                        assert(has_node(before, input[j].name@));
                        let k = choose|k: int| 0 <= k < before.len() && #[trigger] before[k].name@ == input[j].name@;
                        assert(out@[k] == before[k]);
                    }
                }
            }
        } else {
            proof {
                let k = found.unwrap() as int;
                assert(out@[k].name@ == input[m].name@);
                assert(!is_last(input, m)) by {
                    assert(input[src[k]].name@ == input[m].name@);
                }
                assert(has_node(out@, input[m].name@));
            }
        }
    }
    proof {
        lemma_indexed_done(input, out@, src);
    }
    out
}

/// `t[j]` is the last node of `t` with its name.
pub open spec fn model_is_last(t: Seq<NodeModel>, j: int) -> bool {
    &&& 0 <= j < t.len()
    &&& forall|k: int| j < k < t.len() ==> #[trigger] t[k].1.0 != t[j].1.0
}

/// Some node of `t` is called `x`.
pub open spec fn model_has(t: Seq<NodeModel>, x: Seq<char>) -> bool {
    exists|j: int| 0 <= j < t.len() && #[trigger] t[j].1.0 == x
}

/// The position of the last node of `t` called `x`.
pub open spec fn model_last(t: Seq<NodeModel>, x: Seq<char>) -> int {
    choose|j: int| model_is_last(t, j) && #[trigger] t[j].1.0 == x
}

/// The dependency graph of the nodes `t`, where a later node replaces an
/// earlier one of the same name.
pub open spec fn model_graph(t: Seq<NodeModel>) -> Graph<Seq<char>> {
    Map::new(|x: Seq<char>| model_has(t, x), |x: Seq<char>| t[model_last(t, x)].1.1.1)
}

/// The variables read by each node of `t`, where a later node replaces an
/// earlier one of the same name.
pub open spec fn model_vars(t: Seq<NodeModel>) -> Map<Seq<char>, Set<Seq<char>>> {
    Map::new(|x: Seq<char>| model_has(t, x), |x: Seq<char>| t[model_last(t, x)].1.1.0)
}

/// The category of the node of `t` called `x`.
pub open spec fn model_category(t: Seq<NodeModel>, x: Seq<char>) -> Seq<char> {
    t[model_last(t, x)].0
}

/// Whether the node of `t` called `x` is a term.
pub open spec fn model_term(t: Seq<NodeModel>, x: Seq<char>) -> bool {
    t[model_last(t, x)].1.2
}

proof fn lemma_model_last_exists(t: Seq<NodeModel>, x: Seq<char>, n: int)
    requires
        0 <= n <= t.len(),
        exists|j: int| 0 <= j < n && #[trigger] t[j].1.0 == x,
        forall|k: int| n <= k < t.len() ==> #[trigger] t[k].1.0 != x,
    ensures
        model_is_last(t, model_last(t, x)),
        t[model_last(t, x)].1.0 == x,
    decreases n,
{
    if t[n - 1].1.0 == x {
        assert(model_is_last(t, n - 1));
    } else {
        let j = choose|j: int| 0 <= j < n && #[trigger] t[j].1.0 == x;
        assert(j < n - 1);
        lemma_model_last_exists(t, x, n - 1);
    }
}

/// `n` has the category and kind of the node of `t` with its name.
pub open spec fn fits_model(t: Seq<NodeModel>, n: LocalizationNode) -> bool {
    n.category@ == model_category(t, n.name@) && n.term == model_term(t, n.name@)
}

/// The indexed nodes are the nodes of the model: same graph, same variables,
/// same categories and kinds.
proof fn lemma_indexed_model(t: Seq<NodeModel>, ns: Seq<LocalizationNode>, out: Seq<LocalizationNode>)
    requires
        ns.len() == t.len(),
        forall|i: int| 0 <= i < ns.len() ==> node_matches(#[trigger] ns[i], t[i].0, t[i].1),
        indexed(ns, out),
    ensures
        all_wf(out),
        forall|x: Seq<char>| has_node(out, x) <==> #[trigger] model_has(t, x),
        dep_graph(out) == model_graph(t),
        var_map(out) == model_vars(t),
        forall|k: int| 0 <= k < out.len() ==> #[trigger] fits_model(t, out[k]),
{
    assert forall|k: int| #![trigger out[k]] 0 <= k < out.len() implies out[k].wf() && model_has(t, out[k].name@)
        && fits_model(t, out[k])
        && out[k].dependency_set() == t[model_last(t, out[k].name@)].1.1.1
        && out[k].variable_set() == t[model_last(t, out[k].name@)].1.1.0 by {
        assert(is_last_of(ns, out[k]));
        let j = choose|j: int| #![trigger ns[j]] is_last(ns, j) && out[k] == ns[j];
        assert(node_matches(ns[j], t[j].0, t[j].1));
        let x = out[k].name@;
        assert(t[j].1.0 == x);
        assert forall|i: int| j < i < t.len() implies #[trigger] t[i].1.0 != t[j].1.0 by {
            assert(node_matches(ns[i], t[i].0, t[i].1));
            assert(ns[i].name@ != ns[j].name@);
        }
        assert(model_is_last(t, j));
        let l = model_last(t, x);
        assert(model_is_last(t, l) && t[l].1.0 == x);
        assert(l == j) by {
            if l < j {
                assert(t[j].1.0 != t[l].1.0);
            } else if l > j {
                assert(t[l].1.0 != t[j].1.0);
            }
        }
    }
    assert forall|x: Seq<char>| has_node(out, x) <==> #[trigger] model_has(t, x) by {
        if model_has(t, x) {
            let j0 = choose|j: int| 0 <= j < t.len() && #[trigger] t[j].1.0 == x;
            lemma_model_last_exists(t, x, t.len() as int);
            let l = model_last(t, x);
            assert(node_matches(ns[l], t[l].0, t[l].1));
            assert(is_last(ns, l)) by {
                assert forall|i: int| l < i < ns.len() implies #[trigger] ns[i].name@ != ns[l].name@ by {
                    assert(node_matches(ns[i], t[i].0, t[i].1));
                    assert(t[i].1.0 != t[l].1.0);
                }
            }
            let k = choose|k: int| #![trigger out[k]] 0 <= k < out.len() && out[k] == ns[l];
            assert(out[k].name@ == x);
        }
        if has_node(out, x) {
            let k = choose|k: int| 0 <= k < out.len() && #[trigger] out[k].name@ == x;
            assert(out[k].wf());
            assert(model_has(t, out[k].name@));
        }
    }
    assert forall|x: Seq<char>| #[trigger] dep_graph(out).dom().contains(x) implies dep_graph(out)[x] == model_graph(t)[x] && var_map(out)[x] == model_vars(t)[x] by {
        let k = index_of(out, x);
        lemma_index_of(out, k);
        assert(out[k].wf());
    }
    assert(dep_graph(out) =~= model_graph(t));
    assert(var_map(out) =~= model_vars(t));
}

/// What the localization bindings are generated from: the names of all
/// messages and of all terms, and one binding function per message, in the
/// order of `messages`.
pub struct BindingPlan {
    pub messages: Vec<String>,
    pub terms: Vec<String>,
    pub functions: Vec<BindingFunction>,
}

proof fn lemma_distinct_len(v: Seq<String>)
    requires
        distinct(v),
    ensures
        name_set(v).len() == v.len(),
{
    views(v).unique_seq_to_set();
}

/// Plan the localization bindings of a set of resources: collect their
/// messages and terms (a later entry replaces an earlier one of the same
/// name), resolve the references between them, and describe one binding
/// function per message, reading the variables of everything the message
/// reaches.
pub fn plan_bindings(resources: &Vec<LocalizationResource>) -> (r: Result<BindingPlan, BindingError>)
    ensures
        ({
            let t = tagged_nodes(resources@);
            let g = model_graph(t);
            let v = model_vars(t);
            &&& r is Ok <==> resources_call_no_function(resources@) && closed(g) && acyclic(g)
                && forall|x: Seq<char>| g.dom().contains(x) && !model_term(t, x) ==> #[trigger] closure_vars(g, v, x).len() <= 26
            &&& r matches Err(BindingError::UnsupportedFunction(_)) ==> !resources_call_no_function(resources@)
            &&& r matches Err(BindingError::MissingDependency(d)) ==> !g.dom().contains(d@)
                && exists|n: Seq<char>| g.dom().contains(n) && #[trigger] g[n].contains(d@)
            &&& r matches Err(BindingError::CyclicDependency(c)) ==> reaches(g, c@, c@)
            &&& r matches Err(BindingError::TooManyVariables(n)) ==> g.dom().contains(n@) && !model_term(t, n@)
                && closure_vars(g, v, n@).len() > 26
            &&& r matches Err(BindingError::TooManyVariables(_)) ==> resources_call_no_function(resources@)
                && closed(g) && acyclic(g)
            &&& r matches Ok(plan) ==> {
                &&& distinct(plan.messages@)
                &&& name_set(plan.messages@) == Set::new(|x: Seq<char>| g.dom().contains(x) && !model_term(t, x))
                &&& distinct(plan.terms@)
                &&& name_set(plan.terms@) == Set::new(|x: Seq<char>| g.dom().contains(x) && model_term(t, x))
                &&& plan.functions@.len() == plan.messages@.len()
                &&& forall|k: int| 0 <= k < plan.messages@.len() ==> binding_matches(#[trigger] plan.functions@[k],
                    model_category(t, plan.messages@[k]@), plan.messages@[k]@, closure_vars(g, v, plan.messages@[k]@))
            }
        }),
{
    let ghost t = tagged_nodes(resources@);
    let collected = collect_nodes(resources)?;
    let ghost ns = collected@;
    let indexed_nodes = index_nodes(collected);
    let ghost out = indexed_nodes@;
    proof {
        lemma_indexed_model(t, ns, out);
    }
    let resolved = match resolve_dependencies(indexed_nodes) {
        Ok(resolved) => resolved,
        Err(e) => {
            proof {
                assert(dep_graph(out) == model_graph(t));
            }
            return Err(e);
        }
    };
    let ghost g = model_graph(t);
    let ghost v = model_vars(t);
    let mut messages: Vec<String> = Vec::new();
    let mut terms: Vec<String> = Vec::new();
    let mut functions: Vec<BindingFunction> = Vec::new();
    let mut failure: Option<BindingError> = None;
    let mut i: usize = 0;
    proof {
        assert(views(messages@) =~= Seq::<Seq<char>>::empty());
        assert(views(terms@) =~= Seq::<Seq<char>>::empty());
    }
    while i < resolved.len() && failure.is_none()
        invariant
            i <= resolved@.len(),
            same_shape(out, resolved@),
            all_wf(resolved@),
            distinct_node_names(out),
            dep_graph(out) == g,
            var_map(out) == v,
            forall|k: int| 0 <= k < out.len() ==> #[trigger] fits_model(t, out[k]),
            forall|k: int| 0 <= k < resolved@.len() ==> #[trigger] resolved@[k].variable_set() == closure_vars(g, v, out[k].name@),
            distinct(messages@),
            distinct(terms@),
            name_set(messages@) == Set::new(|x: Seq<char>| exists|k: int| 0 <= k < i && !out[k].term && #[trigger] out[k].name@ == x),
            name_set(terms@) == Set::new(|x: Seq<char>| exists|k: int| 0 <= k < i && out[k].term && #[trigger] out[k].name@ == x),
            functions@.len() == messages@.len(),
            forall|k: int| 0 <= k < messages@.len() ==> binding_matches(#[trigger] functions@[k],
                model_category(t, messages@[k]@), messages@[k]@, closure_vars(g, v, messages@[k]@)),
            failure is None ==> forall|x: Seq<char>| g.dom().contains(x) && !model_term(t, x) && closure_vars(g, v, x).len() > 26 ==>
                forall|k: int| 0 <= k < i ==> #[trigger] out[k].name@ != x,
            failure matches Some(e) ==> (e matches BindingError::TooManyVariables(n) && g.dom().contains(n@)
                && !model_term(t, n@) && closure_vars(g, v, n@).len() > 26),
        decreases resolved@.len() - i, (if failure is None { 1int } else { 0int }),
    {
        let node = &resolved[i];
        let ghost x = out[i as int].name@;
        proof {
            assert(resolved@[i as int].name == out[i as int].name);
            assert(out[i as int].term == resolved@[i as int].term);
            assert(out[i as int].category == resolved@[i as int].category);
            lemma_index_of(out, i as int);
            assert(fits_model(t, out[i as int]));
            assert(resolved@[i as int].wf());
            lemma_distinct_len(resolved@[i as int].variables@);
            assert(resolved@[i as int].variable_set() == closure_vars(g, v, x));
        }
        let ghost before_m = messages@;
        let ghost before_t = terms@;
        if node.term {
            proof {
                assert(!name_set(before_t).contains(x)) by {
                    if name_set(before_t).contains(x) {
                        let k = choose|k: int| 0 <= k < i && out[k].term && #[trigger] out[k].name@ == x;
                    }
                }
            }
            terms.push(node.name.clone());
            proof {
                crate::names::lemma_name_set_push(before_t, node.name);
                assert(name_set(terms@) =~= Set::new(|y: Seq<char>| exists|k: int| 0 <= k < i + 1 && out[k].term && #[trigger] out[k].name@ == y));
                assert(name_set(messages@) =~= Set::new(|y: Seq<char>| exists|k: int| 0 <= k < i + 1 && !out[k].term && #[trigger] out[k].name@ == y));
                assert forall|y: Seq<char>| g.dom().contains(y) && !model_term(t, y) && closure_vars(g, v, y).len() > 26 implies
                    forall|k: int| 0 <= k < i + 1 ==> #[trigger] out[k].name@ != y by {
                    assert(x != y);
                }
            }
            i += 1;
        } else {
            match binding_function(node) {
                Ok(f) => {
                    proof {
                        assert(!name_set(before_m).contains(x)) by {
                            if name_set(before_m).contains(x) {
                                let k = choose|k: int| 0 <= k < i && !out[k].term && #[trigger] out[k].name@ == x;
                            }
                        }
                    }
                    messages.push(node.name.clone());
                    functions.push(f);
                    proof {
                        crate::names::lemma_name_set_push(before_m, node.name);
                        assert(name_set(messages@) =~= Set::new(|y: Seq<char>| exists|k: int| 0 <= k < i + 1 && !out[k].term && #[trigger] out[k].name@ == y));
                        assert(name_set(terms@) =~= Set::new(|y: Seq<char>| exists|k: int| 0 <= k < i + 1 && out[k].term && #[trigger] out[k].name@ == y));
                        assert forall|y: Seq<char>| g.dom().contains(y) && !model_term(t, y) && closure_vars(g, v, y).len() > 26 implies
                            forall|k: int| 0 <= k < i + 1 ==> #[trigger] out[k].name@ != y by {
                            assert(x != y);
                        }
                    }
                    i += 1;
                }
                Err(e) => {
                    proof {
                        assert(g.dom().contains(x));
                        assert(closure_vars(g, v, x).len() > 26);
                    }
                    failure = Some(e);
                }
            }
        }
    }
    if let Some(e) = failure {
        return Err(e);
    }
    proof {
        assert(name_set(messages@) =~= Set::new(|x: Seq<char>| g.dom().contains(x) && !model_term(t, x))) by {
            assert forall|x: Seq<char>| g.dom().contains(x) && !model_term(t, x) implies name_set(messages@).contains(x) by {
                let k = index_of(out, x);
                lemma_index_of(out, k);
                assert(fits_model(t, out[k]));
            }
            assert forall|x: Seq<char>| name_set(messages@).contains(x) implies g.dom().contains(x) && !model_term(t, x) by {
                let k = choose|k: int| 0 <= k < out.len() && !out[k].term && #[trigger] out[k].name@ == x;
                lemma_index_of(out, k);
                assert(fits_model(t, out[k]));
            }
        }
        assert(name_set(terms@) =~= Set::new(|x: Seq<char>| g.dom().contains(x) && model_term(t, x))) by {
            assert forall|x: Seq<char>| g.dom().contains(x) && model_term(t, x) implies name_set(terms@).contains(x) by {
                let k = index_of(out, x);
                lemma_index_of(out, k);
                assert(fits_model(t, out[k]));
            }
            assert forall|x: Seq<char>| name_set(terms@).contains(x) implies g.dom().contains(x) && model_term(t, x) by {
                let k = choose|k: int| 0 <= k < out.len() && out[k].term && #[trigger] out[k].name@ == x;
                lemma_index_of(out, k);
                assert(fits_model(t, out[k]));
            }
        }
        assert forall|x: Seq<char>| g.dom().contains(x) && !model_term(t, x) implies #[trigger] closure_vars(g, v, x).len() <= 26 by {
            let k = index_of(out, x);
            lemma_index_of(out, k);
            assert(out[k].name@ == x);
        }
    }
    Ok(BindingPlan { messages, terms, functions })
}

} // verus!
