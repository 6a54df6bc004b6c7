use vstd::prelude::*;

verus! {

/// Identifies a waiter of a signal.
pub type LockId = usize;

/// The waiters, in increasing order of their ids, each with whether it was woken.
pub open spec fn waiters_sorted(ws: Seq<(LockId, bool)>) -> bool {
    forall|i: int, j: int| 0 <= i < j < ws.len() ==> (#[trigger] ws[i]).0 < (#[trigger] ws[j]).0
}

/// The waiters with a fresh waiter `id` put in its place, replacing one with the same id.
pub open spec fn insert_waiter(ws: Seq<(LockId, bool)>, id: LockId) -> Seq<(LockId, bool)>
    decreases ws.len(),
{
    if ws.len() == 0 {
        seq![(id, false)]
    } else if ws[0].0 == id {
        seq![(id, false)] + ws.drop_first()
    } else if ws[0].0 > id {
        seq![(id, false)] + ws
    } else {
        seq![ws[0]] + insert_waiter(ws.drop_first(), id)
    }
}

proof fn lemma_insert_waiter(ws: Seq<(LockId, bool)>, id: LockId)
    requires
        waiters_sorted(ws),
    ensures
        waiters_sorted(insert_waiter(ws, id)),
        insert_waiter(ws, id).len() > 0,
        forall|k: int| 0 <= k < insert_waiter(ws, id).len() ==> (#[trigger] insert_waiter(ws, id)[k]).0 == id
            || ws.contains(insert_waiter(ws, id)[k]),
    decreases ws.len(),
{
    if ws.len() > 0 && ws[0].0 < id {
        let rest = ws.drop_first();
        assert(waiters_sorted(rest));
        lemma_insert_waiter(rest, id);
        let r = insert_waiter(ws, id);
        let t = insert_waiter(rest, id);
        assert(r == seq![ws[0]] + t);
        assert forall|k: int| 0 <= k < r.len() implies (#[trigger] r[k]).0 == id || ws.contains(r[k]) by {
            if k > 0 {
                assert(r[k] == t[k - 1]);
                if t[k - 1].0 != id {
                    let j = choose|j: int| 0 <= j < rest.len() && rest[j] == t[k - 1];
                    assert(ws[j + 1] == r[k]);
                }
            } else {
                assert(ws[0] == r[k]);
            }
        }
        assert forall|i: int, j: int| 0 <= i < j < r.len() implies (#[trigger] r[i]).0 < (#[trigger] r[j]).0 by {
            if i == 0 {
                assert(r[j] == t[j - 1]);
                if t[j - 1].0 != id {
                    let m = choose|m: int| 0 <= m < rest.len() && rest[m] == t[j - 1];
                    assert(ws[m + 1] == t[j - 1]);
                }
            } else {
                assert(r[i] == t[i - 1]);
                assert(r[j] == t[j - 1]);
            }
        }
    } else if ws.len() > 0 && ws[0].0 == id {
        let r = insert_waiter(ws, id);
        assert forall|k: int| 0 <= k < r.len() implies (#[trigger] r[k]).0 == id || ws.contains(r[k]) by {
            if k > 0 {
                assert(r[k] == ws[k]);
            }
        }
        assert forall|i: int, j: int| 0 <= i < j < r.len() implies (#[trigger] r[i]).0 < (#[trigger] r[j]).0 by {
            assert(r[j] == ws[j]);
            if i > 0 {
                assert(r[i] == ws[i]);
            }
        }
    } else if ws.len() > 0 {
        let r = insert_waiter(ws, id);
        assert forall|k: int| 0 <= k < r.len() implies (#[trigger] r[k]).0 == id || ws.contains(r[k]) by {
            if k > 0 {
                assert(r[k] == ws[k - 1]);
            }
        }
        assert forall|i: int, j: int| 0 <= i < j < r.len() implies (#[trigger] r[i]).0 < (#[trigger] r[j]).0 by {
            assert(r[j] == ws[j - 1]);
            if i > 0 {
                assert(r[i] == ws[i - 1]);
            }
        }
    }
}

/// The state of a signal which tasks wait for: the waiters, whether a notification is pending
/// without a waiter to take it, and the id of the next waiter.
#[derive(Debug, Clone)]
pub struct AsyncSignal {
    pub waiters: Vec<(LockId, bool)>,
    pub ready: bool,
    pub next_id: LockId,
}

impl AsyncSignal {
    /// The waiters are in increasing order of their ids.
    pub open spec fn wf(&self) -> bool {
        waiters_sorted(self.waiters@)
    }
}

/// What a poll of a wait tells its task.
#[derive(Debug, Clone, Copy, PartialEq, Eq, Structural)]
pub enum PollState {
    /// The wait is over.
    Ready,
    /// The task was registered, or is still registered, as the waiter of the given id; the
    /// task is to be woken when it is woken.
    Pending(LockId),
}

/// A signal which wakes waiting tasks.
#[derive(Debug, Clone)]
pub struct Notify {
    pub signal: AsyncSignal,
}

/// A wait for a notification.
#[derive(Debug, Clone, Copy)]
pub struct Notified {
    pub id: Option<LockId>,
}

impl Notify {
    /// A signal without waiters or pending notification.
    pub fn new() -> (r: Notify)
        ensures
            r.signal.wf(),
            r.signal.waiters@.len() == 0,
            !r.signal.ready,
            r.signal.next_id == 0,
    {
        Notify { signal: AsyncSignal { waiters: Vec::new(), ready: false, next_id: 0 } }
    }

    /// Wakes the waiter of the smallest id, returning its id; where nobody waits, the next wait
    /// completes at once.
    pub fn notify(&mut self) -> (r: Option<LockId>)
        requires
            old(self).signal.wf(),
        ensures
            final(self).signal.wf(),
            final(self).signal.next_id == old(self).signal.next_id,
            old(self).signal.waiters@.len() > 0 ==> r == Some(old(self).signal.waiters@[0].0)
                && final(self).signal.waiters@ == old(self).signal.waiters@.update(0, (old(self).signal.waiters@[0].0, true))
                && final(self).signal.ready == old(self).signal.ready,
            old(self).signal.waiters@.len() == 0 ==> r is None && final(self).signal.ready
                && final(self).signal.waiters@ == old(self).signal.waiters@,
    {
        if self.signal.waiters.len() > 0 {
            let id = self.signal.waiters[0].0;
            self.signal.waiters.set(0, (id, true));
            Some(id)
        } else {
            self.signal.ready = true;
            None
        }
    }

    /// Wakes every waiter, returning their ids in order.
    pub fn notify_all(&mut self) -> (r: Vec<LockId>)
        requires
            old(self).signal.wf(),
        ensures
            final(self).signal.wf(),
            final(self).signal.next_id == old(self).signal.next_id,
            final(self).signal.ready == old(self).signal.ready,
            r@ == old(self).signal.waiters@.map_values(|w: (LockId, bool)| w.0),
            final(self).signal.waiters@ == old(self).signal.waiters@.map_values(|w: (LockId, bool)| (w.0, true)),
    {
        let mut ids: Vec<LockId> = Vec::new();
        let mut i: usize = 0;
        let ghost ws = self.signal.waiters@;
        while i < self.signal.waiters.len()
            invariant
                0 <= i <= ws.len(),
                self.signal.waiters@.len() == ws.len(),
                self.signal.next_id == old(self).signal.next_id,
                self.signal.ready == old(self).signal.ready,
                ws == old(self).signal.waiters@,
                ids@ == ws.take(i as int).map_values(|w: (LockId, bool)| w.0),
                forall|k: int| 0 <= k < ws.len() ==> #[trigger] self.signal.waiters@[k] == (if k < i {
                    (ws[k].0, true)
                } else {
                    ws[k]
                }),
            decreases ws.len() - i,
        {
            let id = self.signal.waiters[i].0;
            self.signal.waiters.set(i, (id, true));
            ids.push(id);
            proof {
                assert(ws.take(i + 1) =~= ws.take(i as int).push(ws[i as int]));
                assert(ids@ =~= ws.take(i + 1).map_values(|w: (LockId, bool)| w.0));
            }
            i += 1;
        }
        proof {
            assert(ws.take(i as int) =~= ws);
            assert(self.signal.waiters@ =~= ws.map_values(|w: (LockId, bool)| (w.0, true)));
        }
        ids
    }

    /// A wait for the next notification.
    pub fn notified(&self) -> (r: Notified)
        ensures
            r.id is None,
    {
        Notified { id: None }
    }
}

impl Notified {
    /// Polls the wait: it is over where a notification is pending, which it takes, or where its
    /// waiter was woken, which then stops waiting; else its waiter stays registered, and a wait
    /// without a waiter registers a new one under the next id.
    pub fn poll(&self, signal: &mut AsyncSignal) -> (r: PollState)
        requires
            old(signal).wf(),
            self.id matches Some(i) ==> exists|k: int| 0 <= k < old(signal).waiters@.len() && old(signal).waiters@[k].0 == i,
        ensures
            final(signal).wf(),
            old(signal).ready ==> r == PollState::Ready && !final(signal).ready
                && final(signal).waiters@ == old(signal).waiters@ && final(signal).next_id == old(signal).next_id,
            !old(signal).ready && self.id is None ==> r == PollState::Pending(old(signal).next_id)
                && final(signal).waiters@ == insert_waiter(old(signal).waiters@, old(signal).next_id)
                && final(signal).next_id == (if old(signal).next_id == usize::MAX {
                    0
                } else {
                    (old(signal).next_id + 1) as usize
                })
                && !final(signal).ready,
            !old(signal).ready && self.id is Some ==> final(signal).next_id == old(signal).next_id && !final(signal).ready && ({
                let i = self.id->0;
                ||| exists|k: int|
                    0 <= k < old(signal).waiters@.len() && old(signal).waiters@[k] == (i, true) && r == PollState::Ready
                        && final(signal).waiters@ == old(signal).waiters@.remove(k)
                ||| r == PollState::Pending(i) && final(signal).waiters@ == old(signal).waiters@ && forall|k: int|
                    0 <= k < old(signal).waiters@.len() && old(signal).waiters@[k].0 == i ==> !old(signal).waiters@[k].1
            }),
    {
        if signal.ready {
            signal.ready = false;
            return PollState::Ready;
        }
        match self.id {
            Some(i) => {
                let mut k: usize = 0;
                while k < signal.waiters.len() && signal.waiters[k].0 != i
                    invariant
                        0 <= k <= signal.waiters@.len(),
                        signal.waiters@ == old(signal).waiters@,
                        forall|m: int| 0 <= m < k ==> signal.waiters@[m].0 != i,
                    decreases signal.waiters@.len() - k,
                {
                    k += 1;
                }
                assert(k < signal.waiters@.len());
                let (_, woken) = signal.waiters[k];
                if woken {
                    let ghost before = signal.waiters@;
                    signal.waiters.remove(k);
                    proof {
                        assert(before[k as int] == (i, true));
                        assert(waiters_sorted(signal.waiters@)) by {
                            assert forall|a: int, b: int| 0 <= a < b < signal.waiters@.len() implies (#[trigger] signal.waiters@[a]).0 < (#[trigger] signal.waiters@[b]).0 by {
                                let a2 = if a < k { a } else { a + 1 };
                                let b2 = if b < k { b } else { b + 1 };
                                assert(signal.waiters@[a] == before[a2]);
                                assert(signal.waiters@[b] == before[b2]);
                            }
                        }
                    }
                    PollState::Ready
                } else {
                    proof {
                        assert forall|m: int| 0 <= m < signal.waiters@.len() && signal.waiters@[m].0 == i implies !signal.waiters@[m].1 by {
                            if m != k {
                                if m < k {
                                    assert(signal.waiters@[m].0 < signal.waiters@[k as int].0);
                                } else {
                                    assert(signal.waiters@[k as int].0 < signal.waiters@[m].0);
                                }
                            }
                        }
                    }
                    PollState::Pending(i)
                }
            },
            None => {
                let id = signal.next_id;
                signal.next_id = if id == usize::MAX {
                    0
                } else {
                    id + 1
                };
                insert_sorted(&mut signal.waiters, id);
                PollState::Pending(id)
            },
        }
    }
}

/// Puts a fresh waiter `id` in its place among sorted waiters, replacing one with the same id.
fn insert_sorted(ws: &mut Vec<(LockId, bool)>, id: LockId)
    requires
        waiters_sorted(old(ws)@),
    ensures
        final(ws)@ == insert_waiter(old(ws)@, id),
        waiters_sorted(final(ws)@),
{
    proof {
        lemma_insert_waiter(old(ws)@, id);
    }
    let ghost w0 = ws@;
    let mut k: usize = 0;
    assert(w0.take(0) + insert_waiter(w0.skip(0), id) =~= insert_waiter(w0, id)) by {
        assert(w0.skip(0) =~= w0);
    }
    while k < ws.len() && ws[k].0 < id
        invariant
            0 <= k <= w0.len(),
            ws@ == w0,
            waiters_sorted(w0),
            forall|m: int| 0 <= m < k ==> w0[m].0 < id,
            insert_waiter(w0, id) == w0.take(k as int) + insert_waiter(w0.skip(k as int), id),
        decreases w0.len() - k,
    {
        proof {
            let s = w0.skip(k as int);
            assert(s[0] == w0[k as int]);
            assert(s.drop_first() =~= w0.skip(k + 1));
            assert(insert_waiter(s, id) == seq![w0[k as int]] + insert_waiter(w0.skip(k + 1), id));
            assert(w0.take(k + 1) =~= w0.take(k as int).push(w0[k as int]));
            assert(w0.take(k as int) + (seq![w0[k as int]] + insert_waiter(w0.skip(k + 1), id))
                =~= w0.take(k + 1) + insert_waiter(w0.skip(k + 1), id));
        }
        k += 1;
    }
    let ghost s = w0.skip(k as int);
    if k < ws.len() && ws[k].0 == id {
        ws.set(k, (id, false));
        proof {
            assert(s[0].0 == id);
            assert(insert_waiter(s, id) == seq![(id, false)] + s.drop_first());
            assert(ws@ =~= w0.take(k as int) + (seq![(id, false)] + s.drop_first()));
        }
    } else {
        ws.insert(k, (id, false));
        proof {
            if k < w0.len() {
                assert(s[0].0 > id);
                assert(insert_waiter(s, id) == seq![(id, false)] + s);
            } else {
                assert(s.len() == 0);
            }
            assert(ws@ =~= w0.take(k as int) + (seq![(id, false)] + s));
        }
    }
}

} // verus!
