use vstd::prelude::*;

use crate::archetype::Archetype;
use crate::entity::{component_info_key, spec_component_info_key, ComponentKey};
use crate::query::searcher::has_all_keys;
use crate::schedule::access::{Access, AccessKind};

verus! {

/// A query of a system, as the schedule sees it: the components an archetype must have to be
/// visited, and the components it reads (or, where marked, writes) in each archetype it visits.
/// Like every query, it does not visit the entities of components.
#[derive(Debug, Clone)]
pub struct SystemQuery {
    pub required: Vec<ComponentKey>,
    pub components: Vec<(ComponentKey, bool)>,
}

/// Whether the query visits the archetype.
pub open spec fn query_visits<V>(q: SystemQuery, arch: Archetype<V>) -> bool {
    has_all_keys(arch, q.required@) && !arch.components@.contains(spec_component_info_key())
}

/// The accesses to the components of `comps` that the archetype `a` with components `keys`
/// has, in order.
pub open spec fn comps_access(comps: Seq<(ComponentKey, bool)>, a: usize, keys: Seq<ComponentKey>) -> Seq<Access>
    decreases comps.len(),
{
    if comps.len() == 0 {
        Seq::empty()
    } else {
        let prev = comps_access(comps.drop_last(), a, keys);
        let c = comps.last();
        if keys.contains(c.0) {
            prev.push(Access { kind: AccessKind::Archetype { id: a, component: c.0 }, mutable: c.1 })
        } else {
            prev
        }
    }
}

/// The accesses of the query to the first `n` archetypes.
pub open spec fn query_access<V>(q: SystemQuery, archs: Seq<Archetype<V>>, n: nat) -> Seq<Access>
    decreases n,
{
    if n == 0 {
        Seq::empty()
    } else {
        let prev = query_access(q, archs, (n - 1) as nat);
        if query_visits(q, archs[n - 1]) {
            prev + comps_access(q.components@, (n - 1) as usize, archs[n - 1].components@)
        } else {
            prev
        }
    }
}

/// The accesses of the queries to all archetypes, query after query.
pub open spec fn queries_access<V>(qs: Seq<SystemQuery>, archs: Seq<Archetype<V>>) -> Seq<Access>
    decreases qs.len(),
{
    if qs.len() == 0 {
        Seq::empty()
    } else {
        queries_access(qs.drop_last(), archs) + query_access(qs.last(), archs, archs.len())
    }
}

/// Whether the archetype has every key of `required`.
fn has_all<V>(arch: &Archetype<V>, required: &Vec<ComponentKey>) -> (r: bool)
    ensures
        r == has_all_keys(*arch, required@),
{
    let mut i: usize = 0;
    while i < required.len()
        invariant
            0 <= i <= required@.len(),
            forall|k: int| 0 <= k < i ==> arch.components@.contains(#[trigger] required@[k]),
        decreases required@.len() - i,
    {
        if !arch.has(required[i]) {
            return false;
        }
        i += 1;
    }
    true
}

/// Appends the accesses of `comps` to the archetype `a`.
fn push_comps<V>(comps: &Vec<(ComponentKey, bool)>, a: usize, arch: &Archetype<V>, out: &mut Vec<Access>)
    ensures
        final(out)@ == old(out)@ + comps_access(comps@, a, arch.components@),
{
    let mut i: usize = 0;
    while i < comps.len()
        invariant
            0 <= i <= comps@.len(),
            out@ == old(out)@ + comps_access(comps@.take(i as int), a, arch.components@),
        decreases comps@.len() - i,
    {
        let c = comps[i];
        let ghost prev = out@;
        proof {
            assert(comps@.take(i + 1).drop_last() =~= comps@.take(i as int));
            assert(comps@.take(i + 1).last() == c);
        }
        if arch.has(c.0) {
            out.push(Access { kind: AccessKind::Archetype { id: a, component: c.0 }, mutable: c.1 });
        }
        proof {
            assert(out@ =~= old(out)@ + comps_access(comps@.take(i + 1), a, arch.components@));
        }
        i += 1;
    }
    assert(comps@.take(i as int) =~= comps@);
}

/// Appends the accesses of the query to every archetype.
fn push_query<V>(q: &SystemQuery, archs: &Vec<Archetype<V>>, out: &mut Vec<Access>)
    ensures
        final(out)@ == old(out)@ + query_access(*q, archs@, archs@.len()),
{
    let mut a: usize = 0;
    while a < archs.len()
        invariant
            0 <= a <= archs@.len(),
            out@ == old(out)@ + query_access(*q, archs@, a as nat),
        decreases archs@.len() - a,
    {
        let arch = &archs[a];
        let ghost prev = out@;
        if has_all(arch, &q.required) && !arch.has(component_info_key()) {
            push_comps(&q.components, a, arch, out);
            proof {
                assert(out@ =~= old(out)@ + query_access(*q, archs@, (a + 1) as nat));
            }
        }
        a += 1;
    }
}

/// Appends the accesses of the queries to every archetype.
pub fn push_queries<V>(qs: &Vec<SystemQuery>, archs: &Vec<Archetype<V>>, out: &mut Vec<Access>)
    ensures
        final(out)@ == old(out)@ + queries_access(qs@, archs@),
{
    let mut i: usize = 0;
    while i < qs.len()
        invariant
            0 <= i <= qs@.len(),
            out@ == old(out)@ + queries_access(qs@.take(i as int), archs@),
        decreases qs@.len() - i,
    {
        proof {
            assert(qs@.take(i + 1).drop_last() =~= qs@.take(i as int));
            assert(qs@.take(i + 1).last() == qs@[i as int]);
        }
        push_query(&qs[i], archs, out);
        proof {
            assert(out@ =~= old(out)@ + queries_access(qs@.take(i + 1), archs@));
        }
        i += 1;
    }
    assert(qs@.take(i as int) =~= qs@);
}

} // verus!
