use vstd::prelude::*;

use crate::changes::changed_after;
use crate::fetch::base::{Fetch, FetchAccessData, FetchPrepareData};
use crate::fetch::component::ReadComponent;
use crate::fetch::prepared::PreparedFetch;
use crate::filter::change::{component_changes, ChangeFilter, PreparedChangeFilter};
use crate::filter::cmp::{CmpMethod, PreparedCmp};
use crate::filter::cursor::lemma_change_single_exact;
use crate::filter::set::{And, Not, Or};
use crate::slice::{Slice, Slot};
use crate::world::lemma_key_index;

verus! {

/// Law: `And` of two filters matches an archetype exactly when both match it, `Or` exactly when
/// either does, and `Not` exactly when its filter does not.
pub proof fn lemma_combinators_match<'w, V, A: Fetch<'w, V>, B: Fetch<'w, V>>(a: A, b: B, data: FetchAccessData<'w, V>)
    ensures
        And(a, b).spec_filter_arch(data) <==> a.spec_filter_arch(data) && b.spec_filter_arch(data),
        Or((a, b)).spec_filter_arch(data) <==> a.spec_filter_arch(data) || b.spec_filter_arch(data),
        Not(a).spec_filter_arch(data) <==> !a.spec_filter_arch(data),
{
}

/// Law: over a single slot, `Not` of a prepared filter lets the slot through exactly when the
/// filter does not.
pub proof fn lemma_not_single<'w, F: PreparedFetch<'w>>(f: F, slot: Slot)
    requires
        slot < usize::MAX,
        Slice::single_spec(slot).contains_slice(f.spec_filter(Slice::single_spec(slot)).0),
    ensures
        !Not(Some(f)).spec_filter(Slice::single_spec(slot)).0.spec_is_empty() <==> f.spec_filter(Slice::single_spec(slot)).0.spec_is_empty(),
{
}

/// Law: over a single slot, `And` of two prepared filters lets the slot through exactly when
/// both let it through.
pub proof fn lemma_and_single<'w, L: PreparedFetch<'w>, R: PreparedFetch<'w>>(l: L, r: R, slot: Slot)
    requires
        slot < usize::MAX,
        Slice::single_spec(slot).contains_slice(l.spec_filter(Slice::single_spec(slot)).0),
        Slice::single_spec(slot).contains_slice(r.spec_filter(Slice::single_spec(slot)).0),
        l.spec_filter(Slice::single_spec(slot)).0.contains_slice(r.spec_filter(l.spec_filter(Slice::single_spec(slot)).0).0),
    ensures
        !And(l, r).spec_filter(Slice::single_spec(slot)).0.spec_is_empty() <==> (!l.spec_filter(Slice::single_spec(slot)).0.spec_is_empty()
            && !r.spec_filter(Slice::single_spec(slot)).0.spec_is_empty()),
{
    let s = Slice::single_spec(slot);
    let lv = l.spec_filter(s).0;
    if !lv.spec_is_empty() {
        assert(lv == s);
    }
}

/// Law: a comparison over a component lets a single slot through exactly when the entity's
/// value in that slot passes the test.
pub proof fn lemma_comparison_single<'w, V, M: CmpMethod<&'w V>>(p: PreparedCmp<'w, ReadComponent<'w, V>, M>, slot: Slot, i: int)
    requires
        slot < usize::MAX,
        i == slot,
    ensures
        !p.spec_filter(Slice::single_spec(slot)).0.spec_is_empty() <==> p.method.spec_compare(&p.fetch.data@[i]),
{
    reveal_with_fuel(crate::filter::cmp::first_passing, 2);
    reveal_with_fuel(crate::filter::cmp::passing_run_end, 2);
}

/// Law: a change filter prepared for an archetype lets a single slot through exactly when the
/// component in that slot changed, in the filter's way, after the tick of the query's last run.
pub proof fn lemma_change_filter_single<'w, V>(c: ChangeFilter, data: FetchPrepareData<'w, V>, p: PreparedChangeFilter<'w, V>, slot: Slot)
    requires
        data.arch.wf(),
        c.spec_prepared(data, p),
        slot < usize::MAX,
    ensures
        !p.spec_filter(Slice::single_spec(slot)).0.spec_is_empty() <==> changed_after(
            component_changes(data, c.component.key, c.kind),
            data.old_tick,
            slot as int,
        ),
{
    lemma_key_index(data.arch.components@, c.component.key);
    let i = crate::world::key_index(data.arch.components@, c.component.key);
    assert(data.arch.cells@[i].changes.wf());
    lemma_change_single_exact(p.changes, slot);
}

} // verus!
