use vstd::prelude::*;

use crate::archetype::{Archetype, ArchetypeId};
use crate::entity::ComponentKey;

verus! {

/// Whether an archetype holds every one of `required`.
pub open spec fn has_all_keys<V>(arch: Archetype<V>, required: Seq<ComponentKey>) -> bool {
    forall|k: int| 0 <= k < required.len() ==> arch.components@.contains(#[trigger] required[k])
}

/// The ids below `n` of the archetypes which hold every required component, in increasing
/// order.
pub open spec fn matching_upto<V>(archetypes: Seq<Archetype<V>>, required: Seq<ComponentKey>, n: nat) -> Seq<usize>
    decreases n,
{
    if n == 0 {
        Seq::empty()
    } else {
        let prev = matching_upto(archetypes, required, (n - 1) as nat);
        if has_all_keys(archetypes[n - 1], required) {
            prev.push((n - 1) as usize)
        } else {
            prev
        }
    }
}

/// The search terms of a query: the components an archetype must have to be visited.
#[derive(Debug, Clone)]
pub struct ArchetypeSearcher {
    pub required: Vec<ComponentKey>,
}

impl ArchetypeSearcher {
    /// A searcher which requires nothing.
    pub fn new() -> (r: ArchetypeSearcher)
        ensures
            r.required@.len() == 0,
    {
        ArchetypeSearcher { required: Vec::new() }
    }

    /// Adds a required component.
    pub fn add_required(&mut self, component: ComponentKey)
        ensures
            final(self).required@ == old(self).required@.push(component),
    {
        self.required.push(component);
    }

    /// The ids of the archetypes which hold every required component, in increasing order.
    pub fn find_archetypes<V>(&self, archetypes: &Vec<Archetype<V>>) -> (r: Vec<ArchetypeId>)
        ensures
            forall|i: int, j: int| 0 <= i < j < r@.len() ==> r@[i] < r@[j],
            forall|i: int| 0 <= i < r@.len() ==> #[trigger] r@[i] < archetypes@.len(),
            forall|id: usize| id < archetypes@.len() ==> (r@.contains(id) <==> has_all_keys(
                #[trigger] archetypes@[id as int],
                self.required@,
            )),
            r@ == matching_upto(archetypes@, self.required@, archetypes@.len()),
    {
        let mut out: Vec<ArchetypeId> = Vec::new();
        let mut i: usize = 0;
        while i < archetypes.len()
            invariant
                0 <= i <= archetypes@.len(),
                forall|a: int, b: int| 0 <= a < b < out@.len() ==> out@[a] < out@[b],
                forall|a: int| 0 <= a < out@.len() ==> #[trigger] out@[a] < i,
                out@ == matching_upto(archetypes@, self.required@, i as nat),
                forall|id: usize| id < i ==> (out@.contains(id) <==> has_all_keys(
                    #[trigger] archetypes@[id as int],
                    self.required@,
                )),
            decreases archetypes@.len() - i,
        {
            let ok = archetypes[i].has_all(self.required.as_slice());
            let ghost before = out@;
            if ok {
                out.push(i);
            }
            proof {
                assert forall|id: usize| id < i + 1 implies (out@.contains(id) <==> has_all_keys(
                    #[trigger] archetypes@[id as int],
                    self.required@,
                )) by {
                    if id < i {
                        if out@.contains(id) && !before.contains(id) {
                            let k = choose|k: int| 0 <= k < out@.len() && out@[k] == id;
                            assert(k == before.len());
                        }
                        if before.contains(id) {
                            let k = choose|k: int| 0 <= k < before.len() && before[k] == id;
                            assert(out@[k] == id);
                        }
                    } else {
                        if ok {
                            assert(out@[out@.len() - 1] == id);
                        } else if out@.contains(id) {
                            let k = choose|k: int| 0 <= k < out@.len() && out@[k] == id;
                            assert(out@[k] < i);
                        }
                    }
                }
            }
            i += 1;
        }
        out
    }
}

} // verus!
