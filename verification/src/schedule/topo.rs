use vstd::prelude::*;

use std::collections::BTreeMap;

verus! {

broadcast use {vstd::std_specs::btree::group_btree_axioms, vstd::laws_cmp::group_laws_cmp};

/// State of a node during the depth-first sort.
#[derive(Debug, Clone, Copy, PartialEq, Eq, Structural)]
pub enum VisitedState {
    /// The node is on the current path.
    Pending,
    /// The node was sorted, at the given depth.
    Visited(u32),
}

/// The dependencies of `i`; an absent entry means none.
pub open spec fn deps_of(deps: Map<usize, Vec<usize>>, i: usize) -> Seq<usize> {
    if deps.contains_key(i) {
        deps[i]@
    } else {
        Seq::empty()
    }
}

/// `rank` strictly decreases along every dependency and fits in a `u32`.
pub open spec fn ranked(deps: Map<usize, Vec<usize>>, rank: spec_fn(usize) -> nat) -> bool {
    &&& forall|i: usize, k: int| 0 <= k < deps_of(deps, i).len() ==> rank(#[trigger] deps_of(deps, i)[k]) < rank(i)
    &&& forall|i: usize| #[trigger] rank(i) < u32::MAX
}

/// The dependency graph has no cycle (and no path longer than a `u32` can count).
pub open spec fn acyclic(deps: Map<usize, Vec<usize>>) -> bool {
    exists|rank: spec_fn(usize) -> nat| ranked(deps, rank)
}

/// A ranking witnessing that the graph is acyclic.
pub open spec fn the_rank(deps: Map<usize, Vec<usize>>) -> spec_fn(usize) -> nat {
    choose|rank: spec_fn(usize) -> nat| ranked(deps, rank)
}

/// The length of the longest dependency path from `i`.
pub open spec fn depth_r(deps: Map<usize, Vec<usize>>, rank: spec_fn(usize) -> nat, i: usize) -> nat
    decreases rank(i), deps_of(deps, i).len() + 1,
{
    if !ranked(deps, rank) {
        0
    } else {
        match max_depth(deps, rank, i, deps_of(deps, i).len() as int) {
            None => 0,
            Some(m) => m + 1,
        }
    }
}

/// The deepest of the first `k` dependencies of `i`.
pub open spec fn max_depth(deps: Map<usize, Vec<usize>>, rank: spec_fn(usize) -> nat, i: usize, k: int) -> Option<nat>
    decreases rank(i), k,
{
    if !ranked(deps, rank) || k <= 0 || k > deps_of(deps, i).len() {
        None
    } else {
        proof {
            assert(rank(deps_of(deps, i)[k - 1]) < rank(i));
        }
        let d = depth_r(deps, rank, deps_of(deps, i)[k - 1]);
        match max_depth(deps, rank, i, k - 1) {
            None => Some(d),
            Some(m) => Some(if m >= d { m } else { d }),
        }
    }
}

/// The batch an item lands in: the longest dependency path from it.
pub open spec fn depth(deps: Map<usize, Vec<usize>>, i: usize) -> nat {
    depth_r(deps, the_rank(deps), i)
}

pub proof fn lemma_depth_bounded(deps: Map<usize, Vec<usize>>, rank: spec_fn(usize) -> nat, i: usize)
    requires
        ranked(deps, rank),
    ensures
        depth_r(deps, rank, i) <= rank(i),
    decreases rank(i), deps_of(deps, i).len() + 1,
{
    lemma_max_depth_bounded(deps, rank, i, deps_of(deps, i).len() as int);
}

pub proof fn lemma_max_depth_bounded(deps: Map<usize, Vec<usize>>, rank: spec_fn(usize) -> nat, i: usize, k: int)
    requires
        ranked(deps, rank),
    ensures
        max_depth(deps, rank, i, k) matches Some(m) ==> m < rank(i),
    decreases rank(i), k,
{
    if k > 0 && k <= deps_of(deps, i).len() {
        let dep = deps_of(deps, i)[k - 1];
        assert(rank(dep) < rank(i));
        lemma_depth_bounded(deps, rank, dep);
        lemma_max_depth_bounded(deps, rank, i, k - 1);
    }
}

/// Every dependency among the first `k` is no deeper than the maximum.
pub proof fn lemma_max_depth_ge(deps: Map<usize, Vec<usize>>, rank: spec_fn(usize) -> nat, i: usize, k: int, j: int)
    requires
        ranked(deps, rank),
        0 <= j < k <= deps_of(deps, i).len(),
    ensures
        max_depth(deps, rank, i, k) matches Some(m) && depth_r(deps, rank, deps_of(deps, i)[j]) <= m,
    decreases k,
{
    if j < k - 1 {
        lemma_max_depth_ge(deps, rank, i, k - 1, j);
    }
}

/// Law: a dependency always lands in an earlier batch than the item that depends on it.
pub proof fn lemma_dependency_earlier(deps: Map<usize, Vec<usize>>, i: usize, k: int)
    requires
        acyclic(deps),
        0 <= k < deps_of(deps, i).len(),
    ensures
        depth(deps, deps_of(deps, i)[k]) < depth(deps, i),
{
    let rank = the_rank(deps);
    lemma_max_depth_ge(deps, rank, i, deps_of(deps, i).len() as int, k);
}

/// The visited map agrees with the depths, and every node on the current path outranks `idx`.
pub open spec fn visited_ok(
    visited: Map<usize, VisitedState>,
    deps: Map<usize, Vec<usize>>,
    rank: spec_fn(usize) -> nat,
    bound: nat,
) -> bool {
    forall|k: usize| #[trigger]
        visited.contains_key(k) ==> match visited[k] {
            VisitedState::Visited(d) => d == depth_r(deps, rank, k),
            VisitedState::Pending => rank(k) > bound,
        }
}

/// Like `visited_ok`, ignoring the entry of `skip`.
pub open spec fn visited_ok_except(
    visited: Map<usize, VisitedState>,
    deps: Map<usize, Vec<usize>>,
    rank: spec_fn(usize) -> nat,
    bound: nat,
    skip: usize,
) -> bool {
    forall|k: usize| #[trigger]
        visited.contains_key(k) && k != skip ==> match visited[k] {
            VisitedState::Visited(d) => d == depth_r(deps, rank, k),
            VisitedState::Pending => rank(k) > bound,
        }
}

fn visit(
    idx: usize,
    deps: &BTreeMap<usize, Vec<usize>>,
    visited: &mut BTreeMap<usize, VisitedState>,
    result: &mut Vec<usize>,
    Ghost(rank): Ghost<spec_fn(usize) -> nat>,
) -> (d: u32)
    requires
        ranked(deps@, rank),
        visited_ok(old(visited)@, deps@, rank, rank(idx)),
    ensures
        d == depth_r(deps@, rank, idx),
        final(visited)@.contains_key(idx),
        final(visited)@[idx] == VisitedState::Visited(d),
        forall|k: usize| #[trigger] old(visited)@.contains_key(k) && k != idx ==> final(visited)@.contains_key(k) && final(visited)@[k] == old(visited)@[k],
        forall|k: usize| #[trigger] final(visited)@.contains_key(k) && final(visited)@[k] == VisitedState::Pending ==> old(visited)@.contains_key(k) && old(visited)@[k] == VisitedState::Pending,
        forall|b: nat| visited_ok(old(visited)@, deps@, rank, b) ==> visited_ok(final(visited)@, deps@, rank, b),
    decreases rank(idx),
{
    match visited.get(&idx) {
        Some(VisitedState::Pending) => {
            // A node on the current path outranks `idx`, so it cannot be `idx` itself.
            assert(false);
            0
        },
        Some(VisitedState::Visited(d)) => *d,
        None => {
            visited.insert(idx, VisitedState::Pending);
            let ghost start = visited@;
            let ghost ds = deps_of(deps@, idx);
            let mut best: Option<u32> = None;
            match deps.get(&idx) {
                Some(list) => {
                    let mut j: usize = 0;
                    while j < list.len()
                        invariant
                            ranked(deps@, rank),
                            list@ == ds,
                            ds == deps_of(deps@, idx),
                            0 <= j <= list.len(),
                            visited@.contains_key(idx),
                            visited@[idx] == VisitedState::Pending,
                            visited_ok_except(visited@, deps@, rank, rank(idx), idx),
                            forall|k: usize| #[trigger] start.contains_key(k) ==> visited@.contains_key(k) && visited@[k] == start[k],
                            forall|k: usize| #[trigger] visited@.contains_key(k) && visited@[k] == VisitedState::Pending ==> start.contains_key(k) && start[k] == VisitedState::Pending,
                            forall|b: nat| visited_ok(old(visited)@, deps@, rank, b) ==> visited_ok_except(visited@, deps@, rank, b, idx),
                            forall|k: usize| #[trigger] old(visited)@.contains_key(k) ==> start.contains_key(k) && start[k] == old(visited)@[k],
                            start.contains_key(idx) && start[idx] == VisitedState::Pending,
                            best == (match max_depth(deps@, rank, idx, j as int) {
                                Some(m) => Some(m as u32),
                                None => None::<u32>,
                            }),
                            match max_depth(deps@, rank, idx, j as int) {
                                Some(m) => m < rank(idx),
                                None => true,
                            },
                        decreases list.len() - j,
                    {
                        let dep = list[j];
                        proof {
                            assert(rank(ds[j as int]) < rank(idx));
                            assert forall|k: usize| #[trigger] visited@.contains_key(k) implies match visited@[k] {
                                VisitedState::Visited(d) => d == depth_r(deps@, rank, k),
                                VisitedState::Pending => rank(k) > rank(dep),
                            } by {
                            }
                        }
                        let ghost before = visited@;
                        assert(visited_ok(before, deps@, rank, rank(dep)));
                        let d = visit(dep, deps, visited, result, Ghost(rank));
                        proof {
                            assert(visited_ok(visited@, deps@, rank, rank(dep)));
                            lemma_max_depth_bounded(deps@, rank, idx, j + 1);
                            assert forall|k: usize| #[trigger] visited@.contains_key(k) && k != idx implies match visited@[k] {
                                VisitedState::Visited(d) => d == depth_r(deps@, rank, k),
                                VisitedState::Pending => rank(k) > rank(idx),
                            } by {
                                if visited@[k] == VisitedState::Pending {
                                    assert(before.contains_key(k));
                                }
                            }
                            assert forall|b: nat| visited_ok(old(visited)@, deps@, rank, b) implies visited_ok_except(visited@, deps@, rank, b, idx) by {
                                assert(visited_ok_except(before, deps@, rank, b, idx));
                                assert forall|k: usize| #[trigger] visited@.contains_key(k) && k != idx implies match visited@[k] {
                                    VisitedState::Visited(d) => d == depth_r(deps@, rank, k),
                                    VisitedState::Pending => rank(k) > b,
                                } by {
                                    if visited@[k] == VisitedState::Pending {
                                        assert(before.contains_key(k));
                                    }
                                }
                            }
                        }
                        best = match best {
                            None => Some(d),
                            Some(m) => Some(if m >= d { m } else { d }),
                        };
                        j += 1;
                    }
                },
                None => {},
            }
            let depth = match best {
                Some(m) => m + 1,
                None => 0,
            };
            proof {
                lemma_depth_bounded(deps@, rank, idx);
            }
            let ghost before = visited@;
            visited.insert(idx, VisitedState::Visited(depth));
            result.push(idx);
            proof {
                assert forall|b: nat| visited_ok(old(visited)@, deps@, rank, b) implies visited_ok(visited@, deps@, rank, b) by {
                    assert forall|k: usize| #[trigger] visited@.contains_key(k) implies match visited@[k] {
                        VisitedState::Visited(d) => d == depth_r(deps@, rank, k),
                        VisitedState::Pending => rank(k) > b,
                    } by {
                        if k != idx && visited@[k] == VisitedState::Pending {
                            assert(before.contains_key(k));
                            assert(old(visited)@.contains_key(k));
                        }
                    }
                }
            }
            depth
        },
    }
}

/// The items of the groups, in order.
pub open spec fn flat_items<T>(items: Seq<Vec<T>>) -> Seq<T> {
    items.map_values(|v: Vec<T>| v@).flatten()
}

/// The first `n` items whose depth is `d`, in order.
pub open spec fn bucket<T>(flat: Seq<T>, deps: Map<usize, Vec<usize>>, d: nat, n: int) -> Seq<T>
    decreases n,
{
    if n <= 0 {
        Seq::empty()
    } else {
        bucket(flat, deps, d, n - 1) + (if depth(deps, (n - 1) as usize) == d {
            seq![flat[n - 1]]
        } else {
            Seq::empty()
        })
    }
}

/// One more than the greatest depth among the first `n` items; zero for none.
pub open spec fn num_batches(deps: Map<usize, Vec<usize>>, n: int) -> nat
    decreases n,
{
    if n <= 0 {
        0
    } else {
        let p = num_batches(deps, n - 1);
        let q = depth(deps, (n - 1) as usize) + 1;
        if p >= q {
            p
        } else {
            q
        }
    }
}

/// Concatenates the groups.
pub fn flatten<T>(items: Vec<Vec<T>>) -> (r: Vec<T>)
    ensures
        r@ == flat_items(items@),
{
    let mut items = items;
    let ghost orig = items@;
    let mut out: Vec<T> = Vec::new();
    while items.len() > 0
        invariant
            out@ + flat_items(items@) == flat_items(orig),
        decreases items.len(),
    {
        let ghost prev = items@;
        let mut v = items.remove(0);
        proof {
            assert(prev.map_values(|v: Vec<T>| v@).drop_first() =~= items@.map_values(|v: Vec<T>| v@));
            assert(prev.map_values(|v: Vec<T>| v@).first() == v@);
            assert(out@ + v@ + flat_items(items@) =~= out@ + flat_items(prev));
        }
        out.append(&mut v);
    }
    proof {
        assert(items@.map_values(|v: Vec<T>| v@) =~= Seq::<Seq<T>>::empty());
        assert(out@ =~= out@ + flat_items(items@));
    }
    out
}

/// Sorts items into batches by their dependencies: each item lands in the batch given by the
/// longest dependency path from it, so all its dependencies land in earlier batches. Items keep
/// their order inside a batch.
///
/// Items are numbered in the order of the flattened groups; `deps` maps an item to the items it
/// depends on.
pub fn topo_sort<T>(items: Vec<Vec<T>>, deps: &BTreeMap<usize, Vec<usize>>) -> (r: Vec<Vec<T>>)
    requires
        acyclic(deps@),
    ensures
        r@.len() == num_batches(deps@, flat_items(items@).len() as int),
        forall|d: int| 0 <= d < r@.len() ==> (#[trigger] r@[d])@ == bucket(flat_items(items@), deps@, d as nat, flat_items(items@).len() as int),
{
    let ghost rank = the_rank(deps@);
    let mut visited: BTreeMap<usize, VisitedState> = BTreeMap::new();
    let mut result: Vec<usize> = Vec::new();
    let ghost flat_view = flat_items(items@);
    let flat = flatten(items);
    let mut flat = flat;
    let n = flat.len();
    let mut batches: Vec<Vec<T>> = Vec::new();
    let mut idx: usize = 0;
    while flat.len() > 0
        invariant
            ranked(deps@, rank),
            rank == the_rank(deps@),
            n == flat_view.len(),
            idx + flat@.len() == n,
            flat@ == flat_view.subrange(idx as int, n as int),
            visited_ok(visited@, deps@, rank, 0),
            forall|k: usize| #[trigger] visited@.contains_key(k) ==> visited@[k] != VisitedState::Pending,
            batches@.len() == num_batches(deps@, idx as int),
            forall|d: int| 0 <= d < batches@.len() ==> (#[trigger] batches@[d])@ == bucket(flat_view, deps@, d as nat, idx as int),
        decreases flat@.len(),
    {
        let system = flat.remove(0);
        proof {
            assert(visited_ok(visited@, deps@, rank, rank(idx)));
        }
        let level = visit(idx, deps, &mut visited, &mut result, Ghost(rank));
        proof {
            assert(visited_ok(visited@, deps@, rank, 0));
            assert(system == flat_view[idx as int]);
        }
        let ghost prev = batches@;
        let d = level as usize;
        while batches.len() <= d
            invariant
                prev.len() <= batches@.len(),
                batches@.len() == prev.len() || batches@.len() <= d + 1,
                forall|k: int| 0 <= k < prev.len() ==> #[trigger] batches@[k] == prev[k],
                forall|k: int| prev.len() <= k < batches@.len() ==> (#[trigger] batches@[k])@.len() == 0,
            decreases d + 1 - batches@.len(),
        {
            batches.push(Vec::new());
        }
        let ghost mid = batches@;
        let mut b = batches.remove(d);
        b.push(system);
        batches.insert(d, b);
        proof {
            assert forall|e: int| 0 <= e < batches@.len() implies (#[trigger] batches@[e])@ == bucket(flat_view, deps@, e as nat, idx + 1) by {
                assert(bucket(flat_view, deps@, e as nat, idx + 1) == bucket(flat_view, deps@, e as nat, idx as int) + (if depth(deps@, idx) == e as nat {
                    seq![flat_view[idx as int]]
                } else {
                    Seq::empty()
                }));
                if e < prev.len() {
                    if e != d {
                        assert(batches@[e] == prev[e]);
                        assert(bucket(flat_view, deps@, e as nat, idx + 1) =~= bucket(flat_view, deps@, e as nat, idx as int));
                    } else {
                        assert(batches@[e]@ =~= prev[e]@.push(system));
                    }
                } else {
                    lemma_bucket_empty(flat_view, deps@, e as nat, idx as int);
                    if e != d {
                        assert(batches@[e] == mid[e]);
                        assert(bucket(flat_view, deps@, e as nat, idx + 1) =~= Seq::<T>::empty());
                    } else {
                        assert(batches@[e]@ =~= seq![system]);
                    }
                }
            }
            assert(flat@ =~= flat_view.subrange(idx + 1, n as int));
            assert(level == depth(deps@, idx));
        }
        idx = idx + 1;
    }
    batches
}

/// Beyond the batch count, the buckets are empty.
pub proof fn lemma_bucket_empty<T>(flat: Seq<T>, deps: Map<usize, Vec<usize>>, d: nat, n: int)
    requires
        d >= num_batches(deps, n),
    ensures
        bucket(flat, deps, d, n) == Seq::<T>::empty(),
    decreases n,
{
    if n > 0 {
        lemma_bucket_empty(flat, deps, d, n - 1);
        assert(bucket(flat, deps, d, n) =~= Seq::<T>::empty());
    }
}

} // verus!
