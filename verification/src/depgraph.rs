//! Dependency graphs between localization entries, as maps from a name to the
//! set of names it refers to, and the facts about reachability that the
//! dependency resolution of the localization bindings rests on.

use vstd::prelude::*;

verus! {

/// A graph: each node of the domain maps to the set of its direct dependencies.
pub type Graph<K> = Map<K, Set<K>>;

/// The `i`-th step of `s` is an edge of `g`.
pub open spec fn step<K>(g: Graph<K>, s: Seq<K>, i: int) -> bool {
    g.dom().contains(s[i]) && g[s[i]].contains(s[i + 1])
}

/// `s` is a walk of at least one edge through `g`.
pub open spec fn is_path<K>(g: Graph<K>, s: Seq<K>) -> bool {
    &&& s.len() >= 2
    &&& forall|i: int| 0 <= i < s.len() - 1 ==> #[trigger] step(g, s, i)
}

/// `b` can be reached from `a` by following at least one edge.
pub open spec fn reaches<K>(g: Graph<K>, a: K, b: K) -> bool {
    exists|s: Seq<K>| #[trigger] is_path(g, s) && s[0] == a && s.last() == b
}

/// Every dependency of a node of `g` is itself a node of `g`.
pub open spec fn closed<K>(g: Graph<K>) -> bool {
    forall|n: K, d: K| g.dom().contains(n) && #[trigger] g[n].contains(d) ==> g.dom().contains(d)
}

/// No node of `g` can reach itself.
pub open spec fn acyclic<K>(g: Graph<K>) -> bool {
    forall|n: K| !#[trigger] reaches(g, n, n)
}

/// Some node of `g` can reach itself.
pub open spec fn has_cycle<K>(g: Graph<K>) -> bool {
    exists|n: K| #[trigger] reaches(g, n, n)
}

/// `g` after removing node `c` from every dependency set that holds it and
/// putting the dependencies of `c` in its place.
pub open spec fn eliminate<K>(g: Graph<K>, c: K) -> Graph<K> {
    Map::new(
        |n: K| g.dom().contains(n),
        |n: K| if g[n].contains(c) { g[n].remove(c).union(g[c]) } else { g[n] },
    )
}

/// An edge is a path.
pub proof fn lemma_edge_reaches<K>(g: Graph<K>, a: K, b: K)
    requires
        g.dom().contains(a),
        g[a].contains(b),
    ensures
        reaches(g, a, b),
{
    let s = seq![a, b];
    assert(is_path(g, s));
}

/// Reachability is transitive.
pub proof fn lemma_reaches_trans<K>(g: Graph<K>, a: K, b: K, c: K)
    requires
        reaches(g, a, b),
        reaches(g, b, c),
    ensures
        reaches(g, a, c),
{
    let s1 = choose|s: Seq<K>| #[trigger] is_path(g, s) && s[0] == a && s.last() == b;
    let s2 = choose|s: Seq<K>| #[trigger] is_path(g, s) && s[0] == b && s.last() == c;
    let s = s1 + s2.drop_first();
    assert forall|i: int| 0 <= i < s.len() - 1 implies #[trigger] step(g, s, i) by {
        if i < s1.len() - 1 {
            assert(step(g, s1, i));
        } else if i == s1.len() - 1 {
            assert(step(g, s2, 0));
            assert(s[i] == s2[0] && s[i + 1] == s2[1]);
            assert(s[i + 1] == s2[1]);
        } else {
            let j = i - s1.len() + 1;
            assert(step(g, s2, j));
        }
    }
    assert(is_path(g, s));
    assert(s.last() == s2.last());
}

/// A path leaves its first node through one of that node's dependencies.
pub proof fn lemma_reaches_first_step<K>(g: Graph<K>, a: K, m: K) -> (d: K)
    requires
        reaches(g, a, m),
    ensures
        g.dom().contains(a),
        g[a].contains(d),
        d == m || reaches(g, d, m),
{
    let s = choose|s: Seq<K>| #[trigger] is_path(g, s) && s[0] == a && s.last() == m;
    assert(step(g, s, 0));
    if s.len() > 2 {
        let t = s.drop_first();
        assert forall|i: int| 0 <= i < t.len() - 1 implies #[trigger] step(g, t, i) by {
            assert(step(g, s, i + 1));
        }
        assert(is_path(g, t));
    }
    s[1]
}

/// A path enters its last node from a node of the domain.
pub proof fn lemma_reaches_last_step<K>(g: Graph<K>, a: K, m: K) -> (u: K)
    requires
        reaches(g, a, m),
    ensures
        g.dom().contains(u),
        g[u].contains(m),
{
    let s = choose|s: Seq<K>| #[trigger] is_path(g, s) && s[0] == a && s.last() == m;
    let i = s.len() - 2;
    assert(step(g, s, i));
    s[i]
}

/// In a closed graph, whatever a node reaches is a node.
pub proof fn lemma_closed_reaches_in_dom<K>(g: Graph<K>, a: K, m: K)
    requires
        closed(g),
        reaches(g, a, m),
    ensures
        g.dom().contains(m),
{
    let u = lemma_reaches_last_step(g, a, m);
}

/// A path through `g` that neither starts nor ends at `c` survives the
/// elimination of `c`, provided `c` does not depend on itself.
pub proof fn lemma_eliminate_keeps_path<K>(g: Graph<K>, c: K, s: Seq<K>)
    requires
        g.dom().contains(c),
        !g[c].contains(c),
        is_path(g, s),
        s[0] != c,
        s.last() != c,
    ensures
        reaches(eliminate(g, c), s[0], s.last()),
    decreases s.len(),
{
    let e = eliminate(g, c);
    assert(step(g, s, 0));
    if s[1] == c {
        // s = [s0, c, s2, ...]; s2 != c because c does not depend on itself.
        assert(step(g, s, 1));
        assert(s[2] != c);
        assert(e[s[0]] == g[s[0]].remove(c).union(g[c]));
        assert(e[s[0]].contains(s[2]));
        lemma_edge_reaches(e, s[0], s[2]);
        if s.len() > 3 {
            let t = s.subrange(2, s.len() as int);
            assert forall|i: int| 0 <= i < t.len() - 1 implies #[trigger] step(g, t, i) by {
                assert(step(g, s, i + 2));
            }
            assert(is_path(g, t));
            assert(t.last() == s.last());
            lemma_eliminate_keeps_path(g, c, t);
            lemma_reaches_trans(e, s[0], s[2], s.last());
        }
    } else {
        assert(e[s[0]].contains(s[1])) by {
            if g[s[0]].contains(c) {
                assert(g[s[0]].remove(c).contains(s[1]));
            }
        }
        lemma_edge_reaches(e, s[0], s[1]);
        if s.len() > 2 {
            let t = s.drop_first();
            assert forall|i: int| 0 <= i < t.len() - 1 implies #[trigger] step(g, t, i) by {
                assert(step(g, s, i + 1));
            }
            assert(is_path(g, t));
            assert(t.last() == s.last());
            lemma_eliminate_keeps_path(g, c, t);
            lemma_reaches_trans(e, s[0], s[1], s.last());
        }
    }
}

/// Eliminating a node that does not depend on itself keeps a cycle a cycle.
pub proof fn lemma_eliminate_keeps_cycle<K>(g: Graph<K>, c: K)
    requires
        g.dom().contains(c),
        !g[c].contains(c),
        has_cycle(g),
    ensures
        has_cycle(eliminate(g, c)),
{
    let n = choose|n: K| #[trigger] reaches(g, n, n);
    let s = choose|s: Seq<K>| #[trigger] is_path(g, s) && s[0] == n && s.last() == n;
    if n != c {
        lemma_eliminate_keeps_path(g, c, s);
        assert(reaches(eliminate(g, c), n, n));
    } else {
        // Rotate the cycle so that it starts at the node after `c`.
        assert(step(g, s, 0));
        let x = s[1];
        assert(x != c);
        let t = s.drop_first().push(x);
        assert forall|i: int| 0 <= i < t.len() - 1 implies #[trigger] step(g, t, i) by {
            if i < t.len() - 2 {
                assert(step(g, s, i + 1));
            } else {
                assert(step(g, s, s.len() - 2)); assert(step(g, s, 0));
            }
        }
        assert(is_path(g, t));
        lemma_eliminate_keeps_path(g, c, t);
        assert(reaches(eliminate(g, c), x, x));
    }
}

} // verus!
