use vstd::prelude::*;
use crate::effect::{Callback, Effect, Trigger};
use crate::error::{DispatchError, StoreError};
use crate::store::Store;
use crate::types::Signal;

verus! {

/// The pending queue after offering `t`: unchanged if an equal trigger is
/// already pending, else `t` added at the back.
pub open spec fn enqueue_one(q: Seq<Trigger>, t: Trigger) -> Seq<Trigger> {
    if q.contains(t) {
        q
    } else {
        q.push(t)
    }
}

/// The pending queue after offering each of `ts` in order.
pub open spec fn enqueue_all(q: Seq<Trigger>, ts: Seq<Trigger>) -> Seq<Trigger>
    decreases ts.len(),
{
    if ts.len() == 0 {
        q
    } else {
        enqueue_one(enqueue_all(q, ts.drop_last()), ts.last())
    }
}

/// Offering triggers keeps what was pending, keeps the queue free of
/// duplicates, and leaves every offered trigger pending.
pub proof fn lemma_enqueue_all(q: Seq<Trigger>, ts: Seq<Trigger>)
    requires
        q.no_duplicates(),
    ensures
        enqueue_all(q, ts).no_duplicates(),
        q.is_prefix_of(enqueue_all(q, ts)),
        forall|t: Trigger| ts.contains(t) ==> #[trigger] enqueue_all(q, ts).contains(t),
        forall|t: Trigger| #[trigger] enqueue_all(q, ts).contains(t) ==> q.contains(t) || ts.contains(t),
    decreases ts.len(),
{
    if ts.len() > 0 {
        let p = ts.drop_last();
        lemma_enqueue_all(q, p);
        let q1 = enqueue_all(q, p);
        let t = ts.last();
        if !q1.contains(t) {
            let q2 = q1.push(t);
            assert forall|i: int, j: int| 0 <= i < q2.len() && 0 <= j < q2.len() && i != j implies q2[i] != q2[j] by {
                if i < q1.len() && j < q1.len() {
                } else if i == q1.len() {
                    assert(q1.contains(q2[j]));
                } else {
                    assert(q1.contains(q2[i]));
                }
            }
            assert(q1.is_prefix_of(q2));
        }
        assert forall|x: Trigger| ts.contains(x) implies #[trigger] enqueue_all(q, ts).contains(x) by {
            if x != t {
                let k = choose|k: int| 0 <= k < ts.len() && ts[k] == x;
                assert(p[k] == x);
                assert(p.contains(x));
                assert(q1.contains(x));
                assert(enqueue_all(q, ts) == enqueue_one(q1, t));
                let m = choose|m: int| 0 <= m < q1.len() && q1[m] == x;
                assert(enqueue_all(q, ts)[m] == x);
            } else if !q1.contains(t) {
                assert(enqueue_all(q, ts)[q1.len() as int] == t);
            }
        }
        assert forall|x: Trigger| #[trigger] enqueue_all(q, ts).contains(x) implies q.contains(x) || ts.contains(x) by {
            if q1.contains(x) {
                if p.contains(x) {
                    let k = choose|k: int| 0 <= k < p.len() && p[k] == x;
                    assert(ts[k] == x);
                }
            } else {
                assert(x == t);
                assert(ts[ts.len() - 1] == x);
            }
        }
        assert(q.is_prefix_of(enqueue_all(q, ts)));
    }
}

/// Two effects whose triggers share a workflow kind and subject, committed
/// before either trigger is dispatched, leave exactly one instance of that
/// trigger pending.
pub proof fn lemma_trigger_coalescing(pending: Seq<Trigger>, first: Seq<Trigger>, second: Seq<Trigger>, t: Trigger)
    requires
        pending.no_duplicates(),
        first.contains(t),
        second.contains(t),
    ensures
        enqueue_all(enqueue_all(pending, first), second).contains(t),
        enqueue_all(enqueue_all(pending, first), second).no_duplicates(),
{
    lemma_enqueue_all(pending, first);
    lemma_enqueue_all(enqueue_all(pending, first), second);
}

/// A position in the stream of delivered signals.
#[derive(Clone, Copy, Debug, PartialEq, Eq, Structural)]
pub struct Subscription {
    pub next: usize,
}

/// Commits effects and, only after a commit succeeds, schedules their
/// triggers (coalescing equal pending ones) and delivers their signals in
/// order.
#[derive(Debug)]
pub struct Dispatcher {
    queue: Vec<Trigger>,
    delivered: Vec<Signal>,
}

impl Dispatcher {
    pub closed spec fn wf(&self) -> bool {
        self.queue@.no_duplicates()
    }

    /// Triggers waiting to be dispatched, oldest first.
    pub closed spec fn pending(&self) -> Seq<Trigger> {
        self.queue@
    }

    /// Every signal delivered so far, in delivery order.
    pub closed spec fn delivered(&self) -> Seq<Signal> {
        self.delivered@
    }

    pub fn new() -> (r: Dispatcher)
        ensures
            r.wf(),
            r.pending() == Seq::<Trigger>::empty(),
            r.delivered() == Seq::<Signal>::empty(),
    {
        Dispatcher { queue: Vec::new(), delivered: Vec::new() }
    }

    /// Offers one trigger to the queue.
    pub fn enqueue(&mut self, t: Trigger)
        requires
            old(self).wf(),
        ensures
            final(self).wf(),
            final(self).pending() == enqueue_one(old(self).pending(), t),
            final(self).delivered() == old(self).delivered(),
    {
        let mut i: usize = 0;
        while i < self.queue.len()
            invariant
                i <= self.queue@.len(),
                self.wf(),
                self.queue@ == old(self).queue@,
                self.delivered@ == old(self).delivered@,
                forall|j: int| 0 <= j < i ==> self.queue@[j] != t,
            decreases self.queue@.len() - i,
        {
            if self.queue[i] == t {
                assert(self.queue@[i as int] == t);
                return;
            }
            i = i + 1;
        }
        assert(!self.queue@.contains(t));
        proof {
            let q = self.queue@;
            let q2 = q.push(t);
            assert forall|a: int, b: int| 0 <= a < q2.len() && 0 <= b < q2.len() && a != b implies q2[a] != q2[b] by {
                if a == q.len() {
                    assert(q2[b] == q[b]);
                } else if b == q.len() {
                    assert(q2[a] == q[a]);
                }
            }
        }
        self.queue.push(t);
    }

    /// Offers each trigger in order.
    pub fn enqueue_triggers(&mut self, ts: &Vec<Trigger>)
        requires
            old(self).wf(),
        ensures
            final(self).wf(),
            final(self).pending() == enqueue_all(old(self).pending(), ts@),
            final(self).delivered() == old(self).delivered(),
    {
        let ghost q0 = self.queue@;
        let mut i: usize = 0;
        while i < ts.len()
            invariant
                i <= ts@.len(),
                self.wf(),
                self.pending() == enqueue_all(q0, ts@.take(i as int)),
                self.delivered() == old(self).delivered(),
            decreases ts@.len() - i,
        {
            self.enqueue(ts[i]);
            i = i + 1;
            assert(ts@.take(i as int).drop_last() =~= ts@.take(i - 1));
        }
        assert(ts@.take(i as int) =~= ts@);
    }

    /// Commits an effect. The store applies the workspace's writes as one
    /// transaction; only if that succeeds are the triggers offered to the
    /// queue and the signals delivered, in order, and the effect's callbacks
    /// handed back for the caller to run. If it fails, the error comes back
    /// and nothing else happens: no snapshot, trigger or signal changes.
    pub fn commit(&mut self, store: &mut Store, effect: Effect) -> (r: Result<Vec<Callback>, DispatchError>)
        requires
            old(self).wf(),
            old(store).wf(),
            effect.workspace.wf(),
        ensures
            final(self).wf(),
            final(store).wf(),
            ({
                let ws = effect.workspace;
                let c = ws.cell() as int;
                &&& r is Ok <==> (c < old(store).num_cells() && !old(store).fault_armed(c)
                    && ws.base() == old(store).head(c))
                &&& c >= old(store).num_cells() ==> r == Err::<Vec<Callback>, DispatchError>(DispatchError::Store(StoreError::UnknownCell))
                &&& c < old(store).num_cells() && old(store).fault_armed(c) ==> r == Err::<Vec<Callback>, DispatchError>(
                    DispatchError::Store(StoreError::Io))
                &&& c < old(store).num_cells() && !old(store).fault_armed(c) && ws.base() != old(store).head(c) ==> r
                    == Err::<Vec<Callback>, DispatchError>(DispatchError::Store(StoreError::Conflict))
                &&& r is Ok ==> {
                    &&& Store::keeps_history(old(store), final(store))
                    &&& final(store).num_cells() == old(store).num_cells()
                    &&& final(store).head(c) == old(store).head(c) + 1
                    &&& final(store).kv_at(c, final(store).head(c)) == old(store).kv_at(c, ws.base() as int).union_prefer_right(ws.writes())
                    &&& final(store).log_at(c, final(store).head(c)) == old(store).log_at(c, ws.base() as int) + ws.appended()
                    &&& forall|d: int| 0 <= d < old(store).num_cells() && d != c ==> #[trigger] final(store).head(d) == old(store).head(d)
                    &&& final(self).pending() == enqueue_all(old(self).pending(), effect.triggers@)
                    &&& final(self).delivered() == old(self).delivered() + effect.signals@
                    &&& r matches Ok(cbs) && cbs@ == effect.callbacks@
                }
                &&& r is Err ==> {
                    &&& Store::same_history(old(store), final(store))
                    &&& final(self).pending() == old(self).pending()
                    &&& final(self).delivered() == old(self).delivered()
                }
            }),
    {
        let Effect { workspace, triggers, signals, callbacks } = effect;
        let cs = workspace.into_commit_set();
        match store.apply(cs) {
            Err(e) => Err(DispatchError::Store(e)),
            Ok(()) => {
                self.enqueue_triggers(&triggers);
                let mut signals = signals;
                self.delivered.append(&mut signals);
                Ok(callbacks)
            },
        }
    }

    /// Removes and returns the oldest pending trigger, for execution.
    pub fn next_trigger(&mut self) -> (r: Option<Trigger>)
        requires
            old(self).wf(),
        ensures
            final(self).wf(),
            final(self).delivered() == old(self).delivered(),
            old(self).pending().len() == 0 ==> r is None && final(self).pending() == old(self).pending(),
            old(self).pending().len() > 0 ==> r == Some(old(self).pending()[0]) && final(self).pending()
                == old(self).pending().drop_first(),
    {
        if self.queue.len() == 0 {
            return None;
        }
        let t = self.queue.remove(0);
        assert(self.queue@ =~= old(self).queue@.drop_first());
        proof {
            let q = old(self).queue@;
            assert forall|a: int, b: int| 0 <= a < self.queue@.len() && 0 <= b < self.queue@.len() && a != b implies self.queue@[a] != self.queue@[b] by {
                assert(self.queue@[a] == q[a + 1]);
                assert(self.queue@[b] == q[b + 1]);
            }
        }
        Some(t)
    }

    pub fn pending_count(&self) -> (r: usize)
        ensures
            r == self.pending().len(),
    {
        self.queue.len()
    }

    /// Starts a subscription that sees only signals delivered from now on.
    pub fn subscribe(&self) -> (r: Subscription)
        ensures
            r.next == self.delivered().len(),
    {
        Subscription { next: self.delivered.len() }
    }

    /// Returns the next signal this subscription has not seen yet, if any.
    pub fn poll(&self, sub: &mut Subscription) -> (r: Option<Signal>)
        ensures
            old(sub).next < self.delivered().len() ==> {
                &&& r matches Some(s) && s.same(&self.delivered()[old(sub).next as int])
                &&& final(sub).next == old(sub).next + 1
            },
            old(sub).next >= self.delivered().len() ==> r is None && final(sub).next == old(sub).next,
    {
        if sub.next < self.delivered.len() {
            let s = self.delivered[sub.next].copy();
            sub.next = sub.next + 1;
            Some(s)
        } else {
            None
        }
    }
}

} // verus!
