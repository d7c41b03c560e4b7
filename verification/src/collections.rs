use std::collections::HashMap;
use vstd::prelude::*;
use vstd::std_specs::iter::IteratorSpec;

verus! {

broadcast use vstd::std_specs::hash::group_hash_axioms;

/// The keys of a map, each once, in the order in which the map walks them.
pub fn map_keys<V>(m: &HashMap<u16, V>) -> (keys: Vec<u16>)
    ensures
        keys@.to_set() == m@.dom(),
        keys@.no_duplicates(),
{
    let ghost all = vstd::std_specs::hash::spec_keys_iter(m).remaining();
    let mut keys: Vec<u16> = Vec::new();
    for k in it: m.keys()
        invariant
            it.seq() == all,
            keys@ == all.take(it.index()).unref(),
    {
        keys.push(*k);
        assert(keys@ =~= all.take(it.index() + 1).unref());
    }
    assert(keys@ =~= all.unref());
    keys
}

/// Whether two maps hold the same values under the same keys.
pub fn same_u16_maps(a: &HashMap<u16, u16>, b: &HashMap<u16, u16>) -> (same: bool)
    ensures
        same == (a@ == b@),
{
    let keys_a = map_keys(a);
    let mut i: usize = 0;
    while i < keys_a.len()
        invariant
            i <= keys_a.len(),
            keys_a@.to_set() == a@.dom(),
            forall|j: int| 0 <= j < i ==> #[trigger] b@.contains_key(keys_a@[j]) && a@[keys_a@[j]] == b@[keys_a@[j]],
        decreases keys_a.len() - i,
    {
        let k = keys_a[i];
        assert(keys_a@.to_set().contains(k));
        let va = *a.get(&k).unwrap();
        match b.get(&k) {
            Some(vb) => {
                if va != *vb {
                    return false;
                }
            },
            None => {
                return false;
            },
        }
        i += 1;
    }
    let keys_b = map_keys(b);
    let mut j: usize = 0;
    while j < keys_b.len()
        invariant
            j <= keys_b.len(),
            keys_b@.to_set() == b@.dom(),
            forall|t: int| 0 <= t < j ==> #[trigger] a@.contains_key(keys_b@[t]),
        decreases keys_b.len() - j,
    {
        let k = keys_b[j];
        assert(keys_b@.to_set().contains(k));
        if !a.contains_key(&k) {
            return false;
        }
        j += 1;
    }
    proof {
        assert forall|k: u16| a@.contains_key(k) implies b@.contains_key(k) && a@[k] == b@[k] by {
            assert(keys_a@.to_set().contains(k));
            let t = choose|t: int| 0 <= t < keys_a@.len() && keys_a@[t] == k;
            assert(b@.contains_key(keys_a@[t]));
        }
        assert forall|k: u16| b@.contains_key(k) implies a@.contains_key(k) by {
            assert(keys_b@.to_set().contains(k));
            let t = choose|t: int| 0 <= t < keys_b@.len() && keys_b@[t] == k;
            assert(a@.contains_key(keys_b@[t]));
        }
        assert(a@ =~= b@);
    }
    true
}

/// `HashMap::get_mut` of std, on a map keyed by `u16`: a mutable reference to
/// the value under `k`, if there is one. What is written through it becomes
/// the value under `k`; the rest of the map is left as it was.
#[verifier::external_body]
pub(crate) fn map_get_mut<V>(m: &mut HashMap<u16, V>, k: u16) -> (r: Option<&mut V>)
    ensures
        match r {
            Some(v) => {
                &&& old(m)@.contains_key(k)
                &&& *v == old(m)@[k]
                &&& final(m)@ == old(m)@.insert(k, *final(v))
            },
            None => !old(m)@.contains_key(k) && final(m)@ == old(m)@,
        },
{
    m.get_mut(&k)
}

} // verus!
