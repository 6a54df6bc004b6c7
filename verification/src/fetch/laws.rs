use vstd::prelude::*;

use crate::fetch::base::{Fetch, FetchAccessData, FetchPrepareData};
use crate::fetch::component::{EntityIds, ReadComponent, ReadEntities};
use crate::fetch::copied::Copied;
use crate::fetch::opt::{Opt, PreparedOpt};
use crate::fetch::prepared::PreparedFetch;
use crate::world::{key_index, lemma_key_index, ComponentDesc};

verus! {

/// Law: fetched for the entity in `slot` of an archetype,
/// - a component matches and prepares exactly where the archetype has it, and then yields the
///   entity's value of the component;
/// - `Copied` of a component yields that value by copy;
/// - `Opt` of a component yields the value where the archetype has the component, and nothing
///   where it does not;
/// - `EntityIds` yields the entity itself.
pub proof fn lemma_fetch_per_entity<'w, V: Copy>(
    desc: ComponentDesc,
    access: FetchAccessData<'w, V>,
    data: FetchPrepareData<'w, V>,
    pc: ReadComponent<'w, V>,
    pcopy: Copied<ReadComponent<'w, V>>,
    popt: PreparedOpt<ReadComponent<'w, V>>,
    pid: ReadEntities<'w>,
    slot: int,
)
    requires
        data.arch.wf(),
        0 <= slot < data.arch.entities@.len(),
    ensures
        desc.spec_filter_arch(access) <==> access.arch.components@.contains(desc.key),
        desc.spec_prepare_some(data) <==> data.arch.components@.contains(desc.key),
        desc.spec_prepared(data, pc) ==> *pc.spec_fetch(slot) == data.arch.cells@[key_index(data.arch.components@, desc.key)].data@[slot],
        Copied(desc).spec_prepared(data, pcopy) ==> pcopy.spec_fetch(slot) == data.arch.cells@[key_index(data.arch.components@, desc.key)].data@[slot],
        Opt(desc).spec_prepared(data, popt) && data.arch.components@.contains(desc.key) ==> (popt.spec_fetch(slot) matches Some(v)
            && *v == data.arch.cells@[key_index(data.arch.components@, desc.key)].data@[slot]),
        Opt(desc).spec_prepared(data, popt) && !data.arch.components@.contains(desc.key) ==> popt.spec_fetch(slot) is None,
        Fetch::<'w, V>::spec_prepared(&EntityIds, data, pid) ==> pid.spec_fetch(slot) == data.arch.entities@[slot],
{
    lemma_key_index(data.arch.components@, desc.key);
}

} // verus!
