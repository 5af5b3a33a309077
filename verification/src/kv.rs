use vstd::prelude::*;

verus! {

/// The map denoted by an association list; later entries win, though with
/// distinct keys the order is immaterial.
pub open spec fn map_of<V>(v: Seq<(Seq<char>, V)>) -> Map<Seq<char>, V>
    decreases v.len(),
{
    if v.len() == 0 {
        Map::empty()
    } else {
        map_of(v.drop_last()).insert(v.last().0, v.last().1)
    }
}

/// Whether the keys of an association list are pairwise distinct.
pub open spec fn keys_distinct<V>(v: Seq<(Seq<char>, V)>) -> bool {
    forall|i: int, j: int| 0 <= i < j < v.len() ==> (#[trigger] v[i]).0 != (#[trigger] v[j]).0
}

/// With distinct keys, the denoted map holds exactly the listed pairs.
pub proof fn lemma_map_of_props<V>(v: Seq<(Seq<char>, V)>)
    requires
        keys_distinct(v),
    ensures
        forall|k: Seq<char>|
            #[trigger] map_of(v).contains_key(k) <==> exists|i: int|
                0 <= i < v.len() && (#[trigger] v[i]).0 == k,
        forall|i: int| 0 <= i < v.len() ==> map_of(v)[(#[trigger] v[i]).0] == v[i].1,
    decreases v.len(),
{
    if v.len() > 0 {
        let d = v.drop_last();
        assert(keys_distinct(d)) by {
            assert forall|i: int, j: int| 0 <= i < j < d.len() implies (#[trigger] d[i]).0 != (
            #[trigger] d[j]).0 by {
                assert(v[i] == d[i] && v[j] == d[j]);
            }
        }
        lemma_map_of_props(d);
        assert(v.last() == v[v.len() - 1]);
        assert forall|i: int| 0 <= i < v.len() implies map_of(v)[(#[trigger] v[i]).0]
            == v[i].1 by {
            if i < v.len() - 1 {
                assert(d[i] == v[i]);
                assert(v[i].0 != v[v.len() - 1].0);
                assert(map_of(v) == map_of(d).insert(v.last().0, v.last().1));
                assert(map_of(d)[d[i].0] == d[i].1);
            }
        }
        assert forall|k: Seq<char>| #[trigger]
            map_of(v).contains_key(k) implies exists|i: int|
            0 <= i < v.len() && (#[trigger] v[i]).0 == k by {
            if k == v.last().0 {
                assert(v[v.len() - 1].0 == k);
            } else {
                assert(map_of(d).contains_key(k));
                let i = choose|i: int| 0 <= i < d.len() && (#[trigger] d[i]).0 == k;
                assert(d[i] == v[i]);
                assert(v[i].0 == k);
            }
        }
        assert forall|k: Seq<char>|
            exists|i: int|
                0 <= i < v.len() && (#[trigger] v[i]).0 == k implies #[trigger] map_of(
                v,
            ).contains_key(k) by {
            let i = choose|i: int| 0 <= i < v.len() && (#[trigger] v[i]).0 == k;
            if i < v.len() - 1 {
                assert(d[i].0 == k);
            }
        }
    }
}

/// Replacing the value at one index replaces it in the denoted map.
pub proof fn lemma_map_of_update<V>(v: Seq<(Seq<char>, V)>, i: int, nv: V)
    requires
        keys_distinct(v),
        0 <= i < v.len(),
    ensures
        map_of(v.update(i, (v[i].0, nv))) == map_of(v).insert(v[i].0, nv),
        keys_distinct(v.update(i, (v[i].0, nv))),
    decreases v.len(),
{
    let w = v.update(i, (v[i].0, nv));
    assert(keys_distinct(w)) by {
        assert forall|a: int, b: int| 0 <= a < b < w.len() implies (#[trigger] w[a]).0 != (
        #[trigger] w[b]).0 by {
            assert(v[a].0 == w[a].0 && v[b].0 == w[b].0);
        }
    }
    if i == v.len() - 1 {
        assert(w.drop_last() =~= v.drop_last());
        assert(map_of(w) == map_of(v.drop_last()).insert(v[i].0, nv));
        assert(map_of(v).insert(v[i].0, nv) =~= map_of(v.drop_last()).insert(v[i].0, nv));
    } else {
        let d = v.drop_last();
        assert(keys_distinct(d)) by {
            assert forall|a: int, b: int| 0 <= a < b < d.len() implies (#[trigger] d[a]).0 != (
            #[trigger] d[b]).0 by {
                assert(v[a] == d[a] && v[b] == d[b]);
            }
        }
        assert(d[i] == v[i]);
        lemma_map_of_update(d, i, nv);
        assert(w.drop_last() =~= d.update(i, (v[i].0, nv)));
        assert(w.last() == v.last());
        assert(map_of(w) == map_of(d).insert(v[i].0, nv).insert(v.last().0, v.last().1));
        assert(v[i].0 != v.last().0);
        assert(map_of(d).insert(v[i].0, nv).insert(v.last().0, v.last().1) =~= map_of(d).insert(
            v.last().0,
            v.last().1,
        ).insert(v[i].0, nv));
    }
}

/// Appending a fresh key inserts it into the denoted map.
pub proof fn lemma_map_of_push<V>(v: Seq<(Seq<char>, V)>, k: Seq<char>, nv: V)
    requires
        keys_distinct(v),
        forall|i: int| 0 <= i < v.len() ==> (#[trigger] v[i]).0 != k,
    ensures
        map_of(v.push((k, nv))) == map_of(v).insert(k, nv),
        keys_distinct(v.push((k, nv))),
{
    let w = v.push((k, nv));
    assert(w.drop_last() =~= v);
    assert(w.last() == (k, nv));
    assert(keys_distinct(w)) by {
        assert forall|a: int, b: int| 0 <= a < b < w.len() implies (#[trigger] w[a]).0 != (
        #[trigger] w[b]).0 by {
            if b < v.len() {
                assert(v[a] == w[a] && v[b] == w[b]);
            } else {
                assert(w[a] == v[a]);
            }
        }
    }
}

/// The index holding a key, if any.
pub fn find_key<T>(v: &Vec<(String, T)>, k: &String) -> (r: Option<usize>)
    ensures
        r matches Some(i) ==> i < v@.len() && v@[i as int].0@ == k@,
        r is None ==> forall|i: int| 0 <= i < v@.len() ==> (#[trigger] v@[i]).0@ != k@,
{
    let mut i: usize = 0;
    while i < v.len()
        invariant
            i <= v@.len(),
            forall|j: int| 0 <= j < i ==> (#[trigger] v@[j]).0@ != k@,
        decreases v@.len() - i,
    {
        if v[i].0 == *k {
            return Some(i);
        }
        i += 1;
    }
    None
}

/// Whether a vector of integers holds the given value.
pub fn contains_i32(v: &Vec<i32>, x: i32) -> (r: bool)
    ensures
        r == v@.contains(x),
{
    let mut i: usize = 0;
    while i < v.len()
        invariant
            i <= v@.len(),
            forall|j: int| 0 <= j < i ==> v@[j] != x,
        decreases v@.len() - i,
    {
        if v[i] == x {
            assert(v@[i as int] == x);
            return true;
        }
        i += 1;
    }
    assert(!v@.contains(x));
    false
}

/// A fresh copy of a vector of integers.
pub fn clone_i32s(v: &Vec<i32>) -> (r: Vec<i32>)
    ensures
        r@ == v@,
{
    let mut r: Vec<i32> = Vec::new();
    let mut i: usize = 0;
    while i < v.len()
        invariant
            i <= v@.len(),
            r@ =~= v@.take(i as int),
        decreases v@.len() - i,
    {
        r.push(v[i]);
        proof {
            assert(r@ =~= v@.take((i + 1) as int));
        }
        i += 1;
    }
    proof {
        assert(v@.take(v@.len() as int) =~= v@);
    }
    r
}

} // verus!
