//! Ordered association lists with unique keys, used for attribute maps,
//! style maps and listener tables. The mathematical reading of such a list
//! is the `Map` built by inserting its entries left to right.

use vstd::prelude::*;

verus! {

/// The viewed entries of an association list: each key is a `String`
/// viewed as a sequence of characters, each value is viewed by its own type.
pub open spec fn kvs_view<V: View>(s: Seq<(String, V)>) -> Seq<(Seq<char>, V::V)> {
    s.map_values(|p: (String, V)| (p.0@, p.1@))
}

/// The map an association list stands for.
pub open spec fn assoc_map<V>(s: Seq<(Seq<char>, V)>) -> Map<Seq<char>, V>
    decreases s.len(),
{
    if s.len() == 0 {
        Map::empty()
    } else {
        assoc_map(s.drop_last()).insert(s.last().0, s.last().1)
    }
}

/// No two entries share a key.
pub open spec fn keys_unique<V>(s: Seq<(Seq<char>, V)>) -> bool {
    forall|i: int, j: int| 0 <= i < j < s.len() ==> (#[trigger] s[i]).0 != (#[trigger] s[j]).0
}

/// A key is in the map exactly when some entry carries it.
pub proof fn lemma_assoc_contains<V>(s: Seq<(Seq<char>, V)>, k: Seq<char>)
    ensures
        assoc_map(s).contains_key(k) <==> exists|i: int| 0 <= i < s.len() && (#[trigger] s[i]).0 == k,
    decreases s.len(),
{
    if s.len() > 0 {
        lemma_assoc_contains(s.drop_last(), k);
        if s.last().0 == k {
            assert(s[s.len() - 1].0 == k);
        } else if assoc_map(s).contains_key(k) {
            let i = choose|i: int| 0 <= i < s.drop_last().len() && (#[trigger] s.drop_last()[i]).0 == k;
            assert(s[i].0 == k);
        } else {
            assert forall|i: int| 0 <= i < s.len() implies (#[trigger] s[i]).0 != k by {
                if i < s.len() - 1 {
                    assert(s.drop_last()[i] == s[i]);
                }
            }
        }
    }
}

/// With unique keys, the entry at `i` gives the value the map assigns its key.
pub proof fn lemma_assoc_index<V>(s: Seq<(Seq<char>, V)>, i: int)
    requires
        keys_unique(s),
        0 <= i < s.len(),
    ensures
        assoc_map(s).contains_key(s[i].0),
        assoc_map(s)[s[i].0] == s[i].1,
    decreases s.len(),
{
    if i < s.len() - 1 {
        assert(s.drop_last()[i] == s[i]);
        assert(keys_unique(s.drop_last())) by {
            assert forall|p: int, q: int| 0 <= p < q < s.drop_last().len()
                implies (#[trigger] s.drop_last()[p]).0 != (#[trigger] s.drop_last()[q]).0 by {
                assert(s.drop_last()[p] == s[p]);
                assert(s.drop_last()[q] == s[q]);
            }
        }
        lemma_assoc_index(s.drop_last(), i);
        assert(s[i].0 != s.last().0);
    }
}

/// Dropping a prefix keeps uniqueness.
pub proof fn lemma_keys_unique_drop_last<V>(s: Seq<(Seq<char>, V)>)
    requires
        keys_unique(s),
        s.len() > 0,
    ensures
        keys_unique(s.drop_last()),
{
    assert forall|p: int, q: int| 0 <= p < q < s.drop_last().len()
        implies (#[trigger] s.drop_last()[p]).0 != (#[trigger] s.drop_last()[q]).0 by {
        assert(s.drop_last()[p] == s[p]);
        assert(s.drop_last()[q] == s[q]);
    }
}

/// Appending a fresh entry inserts into the map.
pub proof fn lemma_assoc_push<V>(s: Seq<(Seq<char>, V)>, k: Seq<char>, v: V)
    ensures
        assoc_map(s.push((k, v))) == assoc_map(s).insert(k, v),
{
    assert(s.push((k, v)).drop_last() =~= s);
    assert(s.push((k, v)).last() == (k, v));
}

/// Overwriting the entry that holds `k` updates the map at `k`.
pub proof fn lemma_assoc_update<V>(s: Seq<(Seq<char>, V)>, i: int, v: V)
    requires
        keys_unique(s),
        0 <= i < s.len(),
    ensures
        assoc_map(s.update(i, (s[i].0, v))) == assoc_map(s).insert(s[i].0, v),
        keys_unique(s.update(i, (s[i].0, v))),
    decreases s.len(),
{
    let t = s.update(i, (s[i].0, v));
    assert forall|p: int, q: int| 0 <= p < q < t.len()
        implies (#[trigger] t[p]).0 != (#[trigger] t[q]).0 by {
        assert(t[p].0 == s[p].0);
        assert(t[q].0 == s[q].0);
    }
    if i == s.len() - 1 {
        assert(t.drop_last() =~= s.drop_last());
        assert(t.last() == (s[i].0, v));
    } else {
        lemma_keys_unique_drop_last(s);
        assert(t.drop_last() =~= s.drop_last().update(i, (s[i].0, v)));
        assert(s.drop_last()[i] == s[i]);
        lemma_assoc_update(s.drop_last(), i, v);
        assert(t.last() == s.last());
        assert(s[i].0 != s.last().0);
        assert(assoc_map(t) =~= assoc_map(s).insert(s[i].0, v));
    }
}

/// Removing the entry that holds `k` removes `k` from the map.
pub proof fn lemma_assoc_remove<V>(s: Seq<(Seq<char>, V)>, i: int)
    requires
        keys_unique(s),
        0 <= i < s.len(),
    ensures
        assoc_map(s.remove(i)) == assoc_map(s).remove(s[i].0),
        keys_unique(s.remove(i)),
    decreases s.len(),
{
    let t = s.remove(i);
    assert forall|p: int, q: int| 0 <= p < q < t.len()
        implies (#[trigger] t[p]).0 != (#[trigger] t[q]).0 by {
        let sp = if p < i { p } else { p + 1 };
        let sq = if q < i { q } else { q + 1 };
        assert(t[p] == s[sp]);
        assert(t[q] == s[sq]);
    }
    if i == s.len() - 1 {
        assert(t =~= s.drop_last());
        lemma_keys_unique_drop_last(s);
        lemma_assoc_contains(t, s[i].0);
        assert forall|j: int| 0 <= j < t.len() implies (#[trigger] t[j]).0 != s[i].0 by {
            assert(t[j] == s[j]);
        }
        assert(!assoc_map(t).contains_key(s[i].0));
        assert(assoc_map(s) == assoc_map(t).insert(s.last().0, s.last().1));
        assert(assoc_map(t) =~= assoc_map(s).remove(s[i].0));
    } else {
        lemma_keys_unique_drop_last(s);
        assert(t.drop_last() =~= s.drop_last().remove(i));
        assert(s.drop_last()[i] == s[i]);
        lemma_assoc_remove(s.drop_last(), i);
        assert(t.last() == s.last());
        assert(s[i].0 != s.last().0);
        assert(assoc_map(t) =~= assoc_map(s).remove(s[i].0));
    }
}

/// Invariant of the first reconciliation sweep over the entries of the new
/// map `nm`: after the first `i` entries, `cur` already assigns each swept
/// name its new value, and is untouched at every other name.
pub open spec fn sweep_new_inv<V>(
    om: Map<Seq<char>, V>,
    nm: Map<Seq<char>, V>,
    nv: Seq<(Seq<char>, V)>,
    cur: Map<Seq<char>, V>,
    i: int,
) -> bool {
    &&& forall|j: int|
        0 <= j < i ==> cur.contains_key((#[trigger] nv[j]).0) && cur[nv[j].0] == nm[nv[j].0]
    &&& forall|k: Seq<char>|
        #![trigger cur.contains_key(k)]
        (forall|j: int| 0 <= j < i ==> (#[trigger] nv[j]).0 != k) ==> (cur.contains_key(k)
            == om.contains_key(k) && (om.contains_key(k) ==> cur[k] == om[k]))
}

/// Invariant of the second sweep, over the entries of the old map: names of
/// the new map keep their new values, and any other name `cur` still holds
/// comes from the old map and has not been swept yet.
pub open spec fn sweep_old_inv<V>(
    om: Map<Seq<char>, V>,
    nm: Map<Seq<char>, V>,
    ov: Seq<(Seq<char>, V)>,
    cur: Map<Seq<char>, V>,
    j: int,
) -> bool {
    &&& forall|k: Seq<char>|
        #![trigger nm.contains_key(k)]
        nm.contains_key(k) ==> (cur.contains_key(k) && cur[k] == nm[k])
    &&& forall|k: Seq<char>|
        #![trigger cur.contains_key(k)]
        (!nm.contains_key(k) && cur.contains_key(k)) ==> (om.contains_key(k) && forall|p: int|
            0 <= p < j ==> (#[trigger] ov[p]).0 != k)
}

/// First sweep, step that rebinds the name of entry `i`.
pub proof fn lemma_sweep_new_insert<V>(
    om: Map<Seq<char>, V>,
    nm: Map<Seq<char>, V>,
    nv: Seq<(Seq<char>, V)>,
    cur: Map<Seq<char>, V>,
    cur2: Map<Seq<char>, V>,
    i: int,
)
    requires
        sweep_new_inv(om, nm, nv, cur, i),
        keys_unique(nv),
        nm == assoc_map(nv),
        0 <= i < nv.len(),
        cur2 == cur.insert(nv[i].0, nv[i].1),
    ensures
        sweep_new_inv(om, nm, nv, cur2, i + 1),
{
    lemma_assoc_index(nv, i);
}

/// First sweep, step that finds entry `i` already correctly bound.
pub proof fn lemma_sweep_new_skip<V>(
    om: Map<Seq<char>, V>,
    nm: Map<Seq<char>, V>,
    nv: Seq<(Seq<char>, V)>,
    cur: Map<Seq<char>, V>,
    i: int,
)
    requires
        sweep_new_inv(om, nm, nv, cur, i),
        keys_unique(nv),
        nm == assoc_map(nv),
        0 <= i < nv.len(),
        om.contains_key(nv[i].0),
        om[nv[i].0] == nv[i].1,
    ensures
        sweep_new_inv(om, nm, nv, cur, i + 1),
{
    lemma_assoc_index(nv, i);
    assert forall|j: int| 0 <= j < i implies (#[trigger] nv[j]).0 != nv[i].0 by {}
    assert(cur.contains_key(nv[i].0) == om.contains_key(nv[i].0));
}

/// After the first sweep, the second sweep's invariant holds from the start.
pub proof fn lemma_sweep_bridge<V>(
    om: Map<Seq<char>, V>,
    nm: Map<Seq<char>, V>,
    nv: Seq<(Seq<char>, V)>,
    ov: Seq<(Seq<char>, V)>,
    cur: Map<Seq<char>, V>,
)
    requires
        sweep_new_inv(om, nm, nv, cur, nv.len() as int),
        nm == assoc_map(nv),
    ensures
        sweep_old_inv(om, nm, ov, cur, 0),
{
    assert forall|k: Seq<char>| #[trigger] nm.contains_key(k) implies cur.contains_key(k)
        && cur[k] == nm[k] by {
        lemma_assoc_contains(nv, k);
        let j = choose|j: int| 0 <= j < nv.len() && (#[trigger] nv[j]).0 == k;
        assert(cur.contains_key(nv[j].0));
    }
    assert forall|k: Seq<char>| !nm.contains_key(k) && #[trigger] cur.contains_key(k) implies
        om.contains_key(k) by {
        lemma_assoc_contains(nv, k);
    }
}

/// Second sweep, step that drops the name of old entry `j`, which the new
/// map does not hold.
pub proof fn lemma_sweep_old_remove<V>(
    om: Map<Seq<char>, V>,
    nm: Map<Seq<char>, V>,
    ov: Seq<(Seq<char>, V)>,
    cur: Map<Seq<char>, V>,
    cur2: Map<Seq<char>, V>,
    j: int,
)
    requires
        sweep_old_inv(om, nm, ov, cur, j),
        0 <= j < ov.len(),
        !nm.contains_key(ov[j].0),
        cur2 == cur.remove(ov[j].0),
    ensures
        sweep_old_inv(om, nm, ov, cur2, j + 1),
{
}

/// Second sweep, step that keeps old entry `j`, whose name the new map holds.
pub proof fn lemma_sweep_old_skip<V>(
    om: Map<Seq<char>, V>,
    nm: Map<Seq<char>, V>,
    ov: Seq<(Seq<char>, V)>,
    cur: Map<Seq<char>, V>,
    j: int,
)
    requires
        sweep_old_inv(om, nm, ov, cur, j),
        0 <= j < ov.len(),
        nm.contains_key(ov[j].0),
    ensures
        sweep_old_inv(om, nm, ov, cur, j + 1),
{
}

/// After both sweeps the current map is exactly the new map.
pub proof fn lemma_sweep_done<V>(
    om: Map<Seq<char>, V>,
    nm: Map<Seq<char>, V>,
    ov: Seq<(Seq<char>, V)>,
    cur: Map<Seq<char>, V>,
)
    requires
        sweep_old_inv(om, nm, ov, cur, ov.len() as int),
        om == assoc_map(ov),
    ensures
        cur == nm,
{
    assert forall|k: Seq<char>| #[trigger] cur.contains_key(k) implies nm.contains_key(k) by {
        if !nm.contains_key(k) {
            lemma_assoc_contains(ov, k);
        }
    }
    assert(cur =~= nm);
}

/// Viewing distributes over appending an entry.
pub proof fn lemma_kvs_view_push<V: View>(s: Seq<(String, V)>, x: (String, V))
    ensures
        kvs_view(s.push(x)) == kvs_view(s).push((x.0@, x.1@)),
{
    assert(kvs_view(s.push(x)) =~= kvs_view(s).push((x.0@, x.1@)));
}

/// Finds the entry that carries `name`, if any.
pub fn assoc_find<V: View>(v: &Vec<(String, V)>, name: &String) -> (r: Option<usize>)
    ensures
        match r {
            Some(i) => i < v@.len() && v@[i as int].0@ == name@,
            None => forall|j: int| 0 <= j < v@.len() ==> (#[trigger] v@[j]).0@ != name@,
        },
{
    let mut i: usize = 0;
    while i < v.len()
        invariant
            i <= v@.len(),
            forall|j: int| 0 <= j < i ==> (#[trigger] v@[j]).0@ != name@,
        decreases v@.len() - i,
    {
        if v[i].0.eq(name) {
            return Some(i);
        }
        i = i + 1;
    }
    None
}

/// Sets `name` to `value`: overwrites the entry that holds `name`, or
/// appends one. The map reading gains exactly that binding.
pub fn assoc_put<V: View>(v: &mut Vec<(String, V)>, name: String, value: V)
    requires
        keys_unique(kvs_view(old(v)@)),
    ensures
        keys_unique(kvs_view(final(v)@)),
        assoc_map(kvs_view(final(v)@)) == assoc_map(kvs_view(old(v)@)).insert(name@, value@),
{
    let found = assoc_find(v, &name);
    match found {
        Some(i) => {
            let ghost s = kvs_view(v@);
            let entry = &mut v[i];
            entry.1 = value;
            proof {
                assert(kvs_view(v@) =~= s.update(i as int, (s[i as int].0, value@)));
                lemma_assoc_update(s, i as int, value@);
                assert(s[i as int].0 == name@);
            }
        }
        None => {
            let ghost s = kvs_view(v@);
            v.push((name, value));
            proof {
                let t = kvs_view(v@);
                assert(t =~= s.push((name@, value@)));
                lemma_assoc_push(s, name@, value@);
                assert forall|p: int, q: int| 0 <= p < q < t.len()
                    implies (#[trigger] t[p]).0 != (#[trigger] t[q]).0 by {
                    assert(t[p] == s[p]);
                    if q < t.len() - 1 {
                        assert(t[q] == s[q]);
                    }
                }
            }
        }
    }
}

/// Drops the binding for `name`, if present. The map reading loses `name`.
pub fn assoc_drop<V: View>(v: &mut Vec<(String, V)>, name: &String)
    requires
        keys_unique(kvs_view(old(v)@)),
    ensures
        keys_unique(kvs_view(final(v)@)),
        assoc_map(kvs_view(final(v)@)) == assoc_map(kvs_view(old(v)@)).remove(name@),
{
    let found = assoc_find(v, name);
    match found {
        Some(i) => {
            let ghost s = kvs_view(v@);
            v.remove(i);
            proof {
                assert(kvs_view(v@) =~= s.remove(i as int));
                lemma_assoc_remove(s, i as int);
            }
        }
        None => {
            proof {
                let s = kvs_view(v@);
                lemma_assoc_contains(s, name@);
                assert(assoc_map(s) =~= assoc_map(s).remove(name@));
            }
        }
    }
}

} // verus!
