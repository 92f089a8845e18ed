//! Sets of names kept as vectors of strings without repetitions.

use vstd::prelude::*;

verus! {

/// The character sequences of a sequence of strings.
pub open spec fn views(v: Seq<String>) -> Seq<Seq<char>> {
    v.map_values(|s: String| s@)
}

/// The set of names held by `v`.
pub open spec fn name_set(v: Seq<String>) -> Set<Seq<char>> {
    views(v).to_set()
}

/// No name occurs twice in `v`.
pub open spec fn distinct(v: Seq<String>) -> bool {
    views(v).no_duplicates()
}

/// Pushing a string adds its characters to the name set.
pub proof fn lemma_name_set_push(v: Seq<String>, x: String)
    ensures
        views(v.push(x)) == views(v).push(x@),
        name_set(v.push(x)) == name_set(v).insert(x@),
{
    assert(views(v.push(x)) =~= views(v).push(x@));
    views(v).lemma_push_to_set_commute(x@);
}

/// Whether `v` holds `name`.
pub fn contains_name(v: &Vec<String>, name: &String) -> (r: bool)
    ensures
        r == name_set(v@).contains(name@),
{
    let mut i: usize = 0;
    while i < v.len()
        invariant
            i <= v.len(),
            forall|j: int| 0 <= j < i ==> v@[j]@ != name@,
        decreases v.len() - i,
    {
        if v[i] == *name {
            assert(views(v@)[i as int] == name@);
            return true;
        }
        i += 1;
    }
    proof {
        if name_set(v@).contains(name@) {
            let j = choose|j: int| 0 <= j < views(v@).len() && views(v@)[j] == name@;
            assert(v@[j]@ == name@);
        }
    }
    false
}

/// A copy of `v`.
pub fn clone_names(v: &Vec<String>) -> (r: Vec<String>)
    ensures
        r@ == v@,
{
    let mut r: Vec<String> = Vec::new();
    let mut i: usize = 0;
    while i < v.len()
        invariant
            i <= v.len(),
            r@ == v@.subrange(0, i as int),
        decreases v.len() - i,
    {
        r.push(v[i].clone());
        i += 1;
        assert(r@ =~= v@.subrange(0, i as int));
    }
    assert(r@ =~= v@);
    r
}

/// Adds `name` to the set held by `v`, unless it is already there.
pub fn insert_name(v: &mut Vec<String>, name: String)
    requires
        distinct(old(v)@),
    ensures
        distinct(final(v)@),
        name_set(final(v)@) == name_set(old(v)@).insert(name@),
{
    if !contains_name(v, &name) {
        let ghost before = v@;
        v.push(name);
        proof {
            assert(v@ =~= before.push(v@.last()));
            lemma_name_set_push(before, v@.last());
        }
    } else {
        assert(name_set(v@) =~= name_set(v@).insert(name@));
    }
}

/// Adds every name of `src` to the set held by `v`.
pub fn union_names(v: &mut Vec<String>, src: &Vec<String>)
    requires
        distinct(old(v)@),
    ensures
        distinct(final(v)@),
        name_set(final(v)@) == name_set(old(v)@).union(name_set(src@)),
{
    let ghost start = v@;
    let mut i: usize = 0;
    while i < src.len()
        invariant
            i <= src.len(),
            distinct(v@),
            name_set(v@) == name_set(start).union(name_set(src@.subrange(0, i as int))),
        decreases src.len() - i,
    {
        insert_name(v, src[i].clone());
        proof {
            assert(src@.subrange(0, i + 1) =~= src@.subrange(0, i as int).push(src@[i as int]));
            lemma_name_set_push(src@.subrange(0, i as int), src@[i as int]);
        }
        i += 1;
    }
    assert(src@.subrange(0, src.len() as int) =~= src@);
    assert(name_set(v@) =~= name_set(start).union(name_set(src@)));
}

/// The names of `v` other than `name`.
pub fn without_name(v: &Vec<String>, name: &String) -> (r: Vec<String>)
    requires
        distinct(v@),
    ensures
        distinct(r@),
        name_set(r@) == name_set(v@).remove(name@),
{
    let mut r: Vec<String> = Vec::new();
    let mut i: usize = 0;
    while i < v.len()
        invariant
            i <= v.len(),
            distinct(v@),
            distinct(r@),
            name_set(r@) == name_set(v@.subrange(0, i as int)).remove(name@),
            forall|k: int| 0 <= k < r.len() ==> name_set(v@.subrange(0, i as int)).contains(#[trigger] r@[k]@),
        decreases v.len() - i,
    {
        let ghost prefix = v@.subrange(0, i as int);
        let ghost next = v@.subrange(0, i + 1);
        proof {
            assert(next =~= prefix.push(v@[i as int]));
            lemma_name_set_push(prefix, v@[i as int]);
        }
        if v[i] != *name {
            let ghost before = r@;
            proof {
                // v[i] is not yet in r: r only holds names of the prefix, which differ from v[i].
                assert(!views(before).contains(v@[i as int]@)) by {
                    if views(before).contains(v@[i as int]@) {
                        let k = choose|k: int| 0 <= k < views(before).len() && views(before)[k] == v@[i as int]@;
                        assert(name_set(prefix).contains(before[k]@));
                        let j = choose|j: int| 0 <= j < views(prefix).len() && views(prefix)[j] == before[k]@;
                        assert(views(v@)[j] == views(v@)[i as int]);
                    }
                }
            }
            r.push(v[i].clone());
            proof {
                assert(r@ =~= before.push(v@[i as int]));
                lemma_name_set_push(before, v@[i as int]);
                assert forall|k: int| 0 <= k < r.len() implies name_set(next).contains(#[trigger] r@[k]@) by {
                    if k < before.len() {
                        assert(r@[k] == before[k]);
                    }
                }
            }
        }
        proof {
            assert(name_set(r@) =~= name_set(next).remove(name@));
        }
        i += 1;
    }
    assert(v@.subrange(0, v.len() as int) =~= v@);
    r
}

} // verus!
