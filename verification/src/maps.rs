use std::collections::HashMap;
use vstd::prelude::*;
use vstd::std_specs::iter::IteratorSpec;

verus! {

broadcast use vstd::std_specs::hash::group_hash_axioms;

/// The keys of `m`, each once, in the map's own order.
pub fn keys_of<K: Copy, V>(m: &HashMap<K, V>) -> (ks: Vec<K>)
    requires
        vstd::std_specs::hash::obeys_key_model::<K>(),
    ensures
        ks@.no_duplicates(),
        ks@.to_set() == m@.dom(),
{
    let ghost all = vstd::std_specs::hash::spec_keys_iter(m).remaining().unref();
    let mut ks: Vec<K> = Vec::new();
    for k in it: m.keys()
        invariant
            it.seq().unref() == all,
            all.no_duplicates(),
            all.to_set() == m@.dom(),
            ks@ == all.take(it.index() as int),
    {
        ks.push(*k);
        assert(all.take(it.index() as int + 1) == all.take(it.index() as int).push(*k));
    }
    assert(all.take(all.len() as int) == all);
    ks
}

} // verus!
