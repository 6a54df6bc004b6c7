use vstd::prelude::*;

use std::collections::BTreeMap;

use crate::entity::ComponentKey;
use crate::schedule::topo::{acyclic, deps_of, ranked};

verus! {

broadcast use {vstd::std_specs::btree::group_btree_axioms, vstd::laws_cmp::group_laws_cmp};

/// What a system touches.
#[derive(Clone, Copy, Debug, PartialEq, Eq, Structural, Hash)]
pub enum AccessKind {
    /// A component of an archetype.
    Archetype { id: usize, component: ComponentKey },
    /// The change events of a component of an archetype.
    ChangeEvent { id: usize, component: ComponentKey },
    /// The world as a whole.
    World,
    /// The command buffer.
    CommandBuffer,
    /// An outside resource, by identifier.
    External(u64),
    /// An input of the schedule, by identifier.
    Input(u64),
}

/// An access of a system, shared or exclusive.
#[derive(Clone, Copy, Debug, PartialEq, Eq, Structural, Hash)]
pub struct Access {
    pub kind: AccessKind,
    pub mutable: bool,
}

/// Two accesses can run side by side unless they touch the same thing and one of them writes.
pub open spec fn compatible(a: Access, b: Access) -> bool {
    !(a.kind == b.kind && (a.mutable || b.mutable))
}

/// Law: two accesses conflict exactly when they touch the same thing and at least one of them
/// writes it, whichever of the two comes first; accesses to different things, or two reads,
/// never conflict.
pub proof fn lemma_compatible_law(a: Access, b: Access)
    ensures
        compatible(a, b) == compatible(b, a),
        a.kind == b.kind && a.mutable ==> !compatible(a, b),
        a.kind == b.kind && b.mutable ==> !compatible(a, b),
        a.kind != b.kind ==> compatible(a, b),
        !a.mutable && !b.mutable ==> compatible(a, b),
{
}

impl Access {
    /// Whether the two accesses can run side by side.
    pub fn is_compatible_with(&self, other: &Access) -> (r: bool)
        ensures
            r == compatible(*self, *other),
    {
        !(self.kind == other.kind && (self.mutable || other.mutable))
    }
}

/// Some access of `src` conflicts with `a`.
pub open spec fn conflicts(src: Seq<Access>, a: Access) -> bool {
    exists|k: int| 0 <= k < src.len() && !compatible(#[trigger] src[k], a)
}

/// The systems among the first `k` whose accesses conflict with `a`, in order.
pub open spec fn conflicting_srcs(accesses: Seq<Seq<Access>>, a: Access, k: int) -> Seq<usize>
    decreases k,
{
    if k <= 0 {
        Seq::empty()
    } else {
        conflicting_srcs(accesses, a, k - 1) + (if conflicts(accesses[k - 1], a) {
            seq![(k - 1) as usize]
        } else {
            Seq::empty()
        })
    }
}

/// For each of the first `m` accesses of system `dst`, the earlier systems conflicting with it.
pub open spec fn raw_deps(accesses: Seq<Seq<Access>>, dst: int, m: int) -> Seq<usize>
    decreases m,
{
    if m <= 0 {
        Seq::empty()
    } else {
        raw_deps(accesses, dst, m - 1) + conflicting_srcs(accesses, accesses[dst][m - 1], dst)
    }
}

/// Removes consecutive repeated elements.
pub open spec fn dedup(s: Seq<usize>) -> Seq<usize>
    decreases s.len(),
{
    if s.len() == 0 {
        Seq::empty()
    } else {
        let p = dedup(s.drop_last());
        if p.len() > 0 && p.last() == s.last() {
            p
        } else {
            p.push(s.last())
        }
    }
}

/// The dependencies of system `dst`: the earlier systems with an access conflicting with one
/// of its own.
pub open spec fn system_deps(accesses: Seq<Seq<Access>>, dst: int) -> Seq<usize> {
    dedup(raw_deps(accesses, dst, accesses[dst].len() as int))
}

fn any_conflict(src: &Vec<Access>, a: &Access) -> (r: bool)
    ensures
        r == conflicts(src@, *a),
{
    let mut i: usize = 0;
    while i < src.len()
        invariant
            0 <= i <= src@.len(),
            forall|k: int| 0 <= k < i ==> compatible(#[trigger] src@[k], *a),
        decreases src@.len() - i,
    {
        if !src[i].is_compatible_with(a) {
            return true;
        }
        i += 1;
    }
    false
}

fn push_dedup(out: &mut Vec<usize>, x: usize, Ghost(raw): Ghost<Seq<usize>>)
    requires
        old(out)@ == dedup(raw),
    ensures
        final(out)@ == dedup(raw.push(x)),
{
    assert(raw.push(x).drop_last() =~= raw);
    let n = out.len();
    if n > 0 && out[n - 1] == x {
    } else {
        out.push(x);
    }
}

/// Computes, for every system, the earlier systems it depends on: those with an access
/// incompatible with one of its accesses.
pub fn build_dependencies(accesses: &Vec<Vec<Access>>) -> (r: BTreeMap<usize, Vec<usize>>)
    ensures
        forall|i: usize| #[trigger] r@.contains_key(i) <==> i < accesses@.len(),
        forall|i: usize| i < accesses@.len() ==> (#[trigger] r@[i])@ == system_deps(accesses@.map_values(|v: Vec<Access>| v@), i as int),
{
    let ghost acc = accesses@.map_values(|v: Vec<Access>| v@);
    let mut deps: BTreeMap<usize, Vec<usize>> = BTreeMap::new();
    let n = accesses.len();
    let mut dst: usize = 0;
    while dst < n
        invariant
            n == accesses@.len(),
            acc == accesses@.map_values(|v: Vec<Access>| v@),
            0 <= dst <= n,
            forall|i: usize| #[trigger] deps@.contains_key(i) <==> i < dst,
            forall|i: usize| i < dst ==> (#[trigger] deps@[i])@ == system_deps(acc, i as int),
        decreases n - dst,
    {
        let dst_acc = &accesses[dst];
        let mut out: Vec<usize> = Vec::new();
        let ghost mut raw: Seq<usize> = Seq::empty();
        let mut m: usize = 0;
        while m < dst_acc.len()
            invariant
                n == accesses@.len(),
                acc == accesses@.map_values(|v: Vec<Access>| v@),
                dst < n,
                *dst_acc == accesses@[dst as int],
                0 <= m <= dst_acc@.len(),
                raw == raw_deps(acc, dst as int, m as int),
                out@ == dedup(raw),
            decreases dst_acc@.len() - m,
        {
            let a = &dst_acc[m];
            let ghost before = raw;
            let mut src: usize = 0;
            while src < dst
                invariant
                    n == accesses@.len(),
                    acc == accesses@.map_values(|v: Vec<Access>| v@),
                    dst < n,
                    0 <= src <= dst,
                    *a == acc[dst as int][m as int],
                    raw == before + conflicting_srcs(acc, *a, src as int),
                    out@ == dedup(raw),
                decreases dst - src,
            {
                if any_conflict(&accesses[src], a) {
                    push_dedup(&mut out, src, Ghost(raw));
                    proof {
                        raw = raw.push(src);
                        assert(before + conflicting_srcs(acc, *a, src + 1) =~= raw);
                    }
                } else {
                    proof {
                        assert(before + conflicting_srcs(acc, *a, src + 1) =~= raw);
                    }
                }
                src += 1;
            }
            m += 1;
        }
        deps.insert(dst, out);
        dst += 1;
    }
    deps
}

/// Every dependency comes from an earlier system.
pub proof fn lemma_deps_earlier(accesses: Seq<Seq<Access>>, dst: int, x: usize)
    requires
        0 <= dst < accesses.len() <= usize::MAX,
    ensures
        system_deps(accesses, dst).contains(x) ==> x < dst,
{
    lemma_dedup_subset(raw_deps(accesses, dst, accesses[dst].len() as int), x);
    lemma_raw_deps_earlier(accesses, dst, accesses[dst].len() as int, x);
}

pub proof fn lemma_dedup_subset(s: Seq<usize>, x: usize)
    ensures
        dedup(s).contains(x) <==> s.contains(x),
    decreases s.len(),
{
    if s.len() > 0 {
        lemma_dedup_subset(s.drop_last(), x);
        let p = dedup(s.drop_last());
        if s.contains(x) {
            let k = choose|k: int| 0 <= k < s.len() && s[k] == x;
            if k < s.len() - 1 {
                assert(s.drop_last()[k] == x);
            }
        }
        if s.drop_last().contains(x) {
            let k = choose|k: int| 0 <= k < s.drop_last().len() && s.drop_last()[k] == x;
            assert(s[k] == x);
        }
        if !(p.len() > 0 && p.last() == s.last()) {
            if p.contains(x) {
                let k = choose|k: int| 0 <= k < p.len() && p[k] == x;
                assert(p.push(s.last())[k] == x);
            }
            assert(p.push(s.last())[p.len() as int] == s.last());
            if p.push(s.last()).contains(x) && x != s.last() {
                let k = choose|k: int| 0 <= k < p.len() + 1 && p.push(s.last())[k] == x;
                assert(p[k] == x);
            }
        } else {
            assert(p[p.len() - 1] == s.last());
        }
        assert(s[s.len() - 1] == s.last());
    }
}

pub proof fn lemma_raw_deps_earlier(accesses: Seq<Seq<Access>>, dst: int, m: int, x: usize)
    requires
        0 <= dst < accesses.len() <= usize::MAX,
        m <= accesses[dst].len(),
    ensures
        raw_deps(accesses, dst, m).contains(x) <==> (x < dst && exists|j: int| 0 <= j < m && j < accesses[dst].len() && conflicts(accesses[x as int], #[trigger] accesses[dst][j])),
    decreases m,
{
    if m > 0 {
        lemma_raw_deps_earlier(accesses, dst, m - 1, x);
        let a = accesses[dst][m - 1];
        lemma_srcs(accesses, a, dst, x);
        let p = raw_deps(accesses, dst, m - 1);
        let q = conflicting_srcs(accesses, a, dst);
        if (p + q).contains(x) {
            let k = choose|k: int| 0 <= k < (p + q).len() && (p + q)[k] == x;
            if k < p.len() {
                assert(p[k] == x);
            } else {
                assert(q[k - p.len()] == x);
            }
        }
        if p.contains(x) {
            let k = choose|k: int| 0 <= k < p.len() && p[k] == x;
            assert((p + q)[k] == x);
        }
        if q.contains(x) {
            let k = choose|k: int| 0 <= k < q.len() && q[k] == x;
            assert((p + q)[p.len() + k] == x);
        }
    }
}

pub proof fn lemma_srcs(accesses: Seq<Seq<Access>>, a: Access, k: int, x: usize)
    requires
        k <= accesses.len() <= usize::MAX,
    ensures
        conflicting_srcs(accesses, a, k).contains(x) <==> (x < k && conflicts(accesses[x as int], a)),
    decreases k,
{
    if k > 0 {
        lemma_srcs(accesses, a, k - 1, x);
        let p = conflicting_srcs(accesses, a, k - 1);
        let tail: Seq<usize> = if conflicts(accesses[k - 1], a) { seq![(k - 1) as usize] } else { Seq::empty() };
        if (p + tail).contains(x) {
            let j = choose|j: int| 0 <= j < (p + tail).len() && (p + tail)[j] == x;
            if j < p.len() {
                assert(p[j] == x);
            } else {
                assert(tail[j - p.len()] == x);
            }
        }
        if p.contains(x) {
            let j = choose|j: int| 0 <= j < p.len() && p[j] == x;
            assert((p + tail)[j] == x);
        }
        if x == k - 1 && conflicts(accesses[x as int], a) {
            assert((p + tail)[p.len() as int] == x);
        }
    }
}

/// The identity (on the systems) ranks a dependency map built from accesses.
pub proof fn lemma_built_deps_acyclic(accesses: Seq<Seq<Access>>, deps: Map<usize, Vec<usize>>)
    requires
        accesses.len() < u32::MAX,
        forall|i: usize| #[trigger] deps.contains_key(i) <==> i < accesses.len(),
        forall|i: usize| i < accesses.len() ==> (#[trigger] deps[i])@ == system_deps(accesses, i as int),
    ensures
        acyclic(deps),
        ranked(deps, |i: usize| if i < accesses.len() { i as nat } else { 0 }),
{
    let rank = |i: usize| if i < accesses.len() { i as nat } else { 0nat };
    assert forall|i: usize, k: int| 0 <= k < deps_of(deps, i).len() implies rank(#[trigger] deps_of(deps, i)[k]) < rank(i) by {
        let x = deps_of(deps, i)[k];
        assert(system_deps(accesses, i as int).contains(x));
        lemma_deps_earlier(accesses, i as int, x);
    }
    assert(ranked(deps, rank));
}

/// Law: a system depends on an earlier system exactly when one of its accesses conflicts with
/// one of the earlier system's accesses.
pub proof fn lemma_dependency_iff_conflict(accesses: Seq<Seq<Access>>, dst: int, src: usize)
    requires
        0 <= dst < accesses.len() <= usize::MAX,
    ensures
        system_deps(accesses, dst).contains(src) <==> (src < dst && exists|j: int| 0 <= j < accesses[dst].len() && conflicts(accesses[src as int], #[trigger] accesses[dst][j])),
{
    lemma_dedup_subset(raw_deps(accesses, dst, accesses[dst].len() as int), src);
    lemma_raw_deps_earlier(accesses, dst, accesses[dst].len() as int, src);
}

/// Law: a later system depends on an earlier one whenever both touch the same thing and either
/// of them writes it: a writer after a reader, a reader after a writer, and a writer after a
/// writer all run in order.
pub proof fn lemma_writes_order_systems(accesses: Seq<Seq<Access>>, src: usize, dst: int, i: int, j: int)
    requires
        0 <= src < dst < accesses.len() <= usize::MAX,
        0 <= i < accesses[src as int].len(),
        0 <= j < accesses[dst].len(),
        accesses[src as int][i].kind == accesses[dst][j].kind,
        accesses[src as int][i].mutable || accesses[dst][j].mutable,
    ensures
        system_deps(accesses, dst).contains(src),
{
    lemma_dependency_iff_conflict(accesses, dst, src);
    assert(!compatible(accesses[src as int][i], accesses[dst][j]));
    assert(conflicts(accesses[src as int], accesses[dst][j]));
}

} // verus!
