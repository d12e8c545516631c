//! Maps keyed by excerpts.

use std::collections::HashMap;

use vstd::prelude::*;

use crate::anchor::ExcerptId;

verus! {

broadcast use vstd::std_specs::hash::group_hash_axioms;

/// The keys of a map, each once, in the order in which the map happens to give them.
pub fn keys_of<V>(map: &HashMap<ExcerptId, V>) -> (keys: Vec<ExcerptId>)
    ensures
        keys@.no_duplicates(),
        forall|id: ExcerptId| #[trigger] keys@.contains(id) <==> map@.contains_key(id),
{
    let mut keys: Vec<ExcerptId> = Vec::new();
    for id in it: map.keys()
        invariant
            it.seq().unref().to_set() == map@.dom(),
            it.seq().no_duplicates(),
            keys@ =~= it.seq().unref().take(it.index() as int),
            it.index() == it.seq().len() ==> keys@ =~= it.seq().unref(),
    {
        keys.push(*id);
    }
    assert forall|id: ExcerptId| #[trigger] keys@.contains(id) <==> map@.contains_key(id) by {
        assert(keys@.to_set().contains(id) <==> map@.dom().contains(id));
    }
    keys
}

/// Removes from `map` what stands for excerpts that `kept` does not name.
pub fn retain_excerpts<V>(map: &mut HashMap<ExcerptId, V>, kept: &Vec<ExcerptId>)
    ensures
        final(map)@ == old(map)@.restrict(kept@.to_set()),
{
    let keys = keys_of(map);
    let ghost before = map@;
    let mut i: usize = 0;
    assert forall|id: ExcerptId| #[trigger] before.contains_key(id) implies exists|k: int|
        0 <= k < keys.len() && keys@[k] == id by {
        assert(keys@.contains(id));
    }
    while i < keys.len()
        invariant
            i <= keys.len(),
            keys@.no_duplicates(),
            forall|id: ExcerptId| #[trigger] keys@.contains(id) <==> before.contains_key(id),
            forall|id: ExcerptId| #[trigger]
                map@.contains_key(id) <==> before.contains_key(id) && (kept@.contains(id)
                    || exists|k: int| i <= k < keys.len() && keys@[k] == id),
            forall|id: ExcerptId| #[trigger] map@.contains_key(id) ==> map@[id] == before[id],
        decreases keys.len() - i,
    {
        let id: ExcerptId = keys[i];
        let ghost so_far = map@;
        assert(keys@.contains(id));
        if !contains_excerpt(kept, id) {
            map.remove(&id);
        }
        assert forall|other: ExcerptId| #[trigger]
            map@.contains_key(other) <==> before.contains_key(other) && (kept@.contains(other)
                || exists|k: int| i + 1 <= k < keys.len() && keys@[k] == other) by {
            assert(so_far.contains_key(other) <==> before.contains_key(other) && (kept@.contains(
                other,
            ) || exists|k: int| i <= k < keys.len() && keys@[k] == other));
            if exists|k: int| i <= k < keys.len() && keys@[k] == other {
                let k = choose|k: int| i <= k < keys.len() && keys@[k] == other;
                if other != id {
                    assert(i + 1 <= k < keys.len() && keys@[k] == other);
                }
            }
        }
        i = i + 1;
    }
    assert(map@ =~= before.restrict(kept@.to_set()));
}

/// Whether `id` is among `ids`.
pub fn contains_excerpt(ids: &Vec<ExcerptId>, id: ExcerptId) -> (contained: bool)
    ensures
        contained == ids@.contains(id),
{
    let mut i: usize = 0;
    while i < ids.len()
        invariant
            i <= ids.len(),
            forall|j: int| 0 <= j < i ==> ids@[j] != id,
        decreases ids.len() - i,
    {
        if ids[i] == id {
            return true;
        }
        i = i + 1;
    }
    false
}

} // verus!
