//! Turning a map around.

use std::collections::HashMap;
use std::hash::{BuildHasher, Hash};
use vstd::prelude::*;
use vstd::std_specs::hash::{builds_valid_hashers, obeys_key_model};
use vstd::std_specs::iter::IteratorSpec;

verus! {

broadcast use vstd::std_specs::hash::group_hash_axioms;

/// The map from each value of `hmap` to a key that `hmap` maps to it: every
/// value becomes a key, and where several keys share a value, one of them
/// (which one depends on the order in which the map is walked) becomes its
/// value.
pub fn invert_map<K, V, S>(hmap: HashMap<K, V, S>) -> (r: HashMap<V, K, S>) where
    V: Hash + Eq + Copy,
    K: Eq + Hash + Copy,
    S: BuildHasher + Default,

    requires
        obeys_key_model::<K>(),
        obeys_key_model::<V>(),
        builds_valid_hashers::<S>(),
    ensures
        forall|v: V| #[trigger] r@.contains_key(v) <==> hmap@.values().contains(v),
        forall|v: V| #[trigger] r@.contains_key(v) ==> hmap@.contains_key(r@[v]) && hmap@[r@[v]] == v,
{
    let mut out: HashMap<V, K, S> = HashMap::default();
    for (k, v) in it: hmap.iter()
        invariant
            obeys_key_model::<V>(),
            builds_valid_hashers::<S>(),
            it.seq() == vstd::std_specs::hash::spec_hash_map_iter(&hmap).remaining(),
            forall|j: int| 0 <= j < it.index() ==> #[trigger] out@.contains_key(*it.seq()[j].1),
            forall|w: V|
                #[trigger] out@.contains_key(w) ==> hmap@.contains_key(out@[w]) && hmap@[out@[w]]
                    == w,
            forall|w: V|
                #[trigger] out@.contains_key(w) ==> hmap@.values().contains(w),
    {
        proof {
            let s = it.seq();
            assert(hmap@.contains_key(*s[it.index() as int].0));
            assert(hmap@[*k] == *v);
            assert(hmap@.values().contains(*v));
        }
        out.insert(*v, *k);
    }
    proof {
        let s = vstd::std_specs::hash::spec_hash_map_iter(&hmap).remaining();
        assert forall|w: V| hmap@.values().contains(w) implies #[trigger] out@.contains_key(w) by {
            let k = choose|k: K| hmap@.contains_key(k) && hmap@[k] == w;
            assert(s.contains((&k, &hmap@[k])));
            let j = choose|j: int| 0 <= j < s.len() && s[j] == (&k, &hmap@[k]);
            assert(out@.contains_key(*s[j].1));
        }
    }
    out
}

} // verus!
