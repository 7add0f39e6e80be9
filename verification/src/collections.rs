//! Walking over hash maps, whose order is left open.

use std::collections::HashMap;
use std::hash::Hash;

use vstd::prelude::*;

verus! {

broadcast use vstd::std_specs::hash::group_hash_axioms;

/// `keys` lists every key of `m` once.
pub open spec fn lists_keys<K, V>(keys: Seq<K>, m: Map<K, V>) -> bool {
    &&& keys.no_duplicates()
    &&& keys.to_set() == m.dom()
}

/// The keys of a map, each once, in some order.
pub(crate) fn key_list<K: Copy + Eq + Hash, V>(m: &HashMap<K, V>) -> (keys: Vec<K>)
    requires
        vstd::std_specs::hash::obeys_key_model::<K>(),
    ensures
        lists_keys(keys@, m@),
{
    let mut keys: Vec<K> = Vec::new();
    for key in it: m.keys()
        invariant
            keys@.len() == it.index(),
            forall|i: int| 0 <= i < keys@.len() ==> keys@[i] == *it.seq()[i],
    {
        keys.push(*key);
    }
    proof {
        let seen = vstd::std_specs::iter::IteratorSpec::remaining(&m.keys());
        assert(keys@ =~= seen.unref());
        assert(keys@.no_duplicates()) by {
            assert forall|i: int, j: int|
                0 <= i < keys@.len() && 0 <= j < keys@.len() && i != j implies keys@[i]
                != keys@[j] by {
                assert(seen[i] != seen[j]);
            }
        }
    }
    keys
}

/// A key is listed exactly if it is in the map.
pub proof fn lemma_listed<K, V>(keys: Seq<K>, m: Map<K, V>, key: K)
    requires
        lists_keys(keys, m),
    ensures
        keys.contains(key) == m.contains_key(key),
{
    assert(keys.to_set().contains(key) == keys.contains(key));
}

} // verus!
