//! The worker pool's dispatcher: a fixed set of slots, each bound to one
//! storage connection and running at most one operation at a time, and a
//! first-in first-out queue of operations waiting for a slot.
//!
//! The pool only decides; whoever drives it runs the operations. Each
//! submission gets a ticket, numbered from 0 in submission order.

use vstd::prelude::*;

use crate::error::Error;

verus! {

/// What became of a submission.
#[derive(Debug, Clone, Copy, PartialEq, Eq, Structural)]
pub enum Dispatch {
    /// Run the operation with this ticket on this slot now.
    Start { slot: usize, ticket: u64 },
    /// Every slot is busy; the operation waits its turn.
    Queued { ticket: u64 },
}

/// A fixed-size pool of worker slots with a waiting queue.
pub struct WorkerPool {
    /// The ticket each slot runs, or `None` for an idle slot.
    slots: Vec<Option<u64>>,
    /// Tickets waiting for a slot, oldest first.
    queue: Vec<u64>,
    next_ticket: u64,
    closed: bool,
    /// Tickets in the order their operations completed.
    finished: Ghost<Seq<u64>>,
}

pub struct PoolView {
    pub slots: Seq<Option<u64>>,
    pub queue: Seq<u64>,
    pub next_ticket: u64,
    pub closed: bool,
    pub finished: Seq<u64>,
}

impl View for WorkerPool {
    type V = PoolView;

    closed spec fn view(&self) -> PoolView {
        PoolView {
            slots: self.slots@,
            queue: self.queue@,
            next_ticket: self.next_ticket,
            closed: self.closed,
            finished: self.finished@,
        }
    }
}

/// Whether some slot is idle.
pub open spec fn has_idle(slots: Seq<Option<u64>>) -> bool {
    exists|s: int| 0 <= s < slots.len() && #[trigger] slots[s] is None
}

impl PoolView {
    /// Whether slot `s` runs ticket `t`.
    pub open spec fn runs(self, s: int, t: u64) -> bool {
        0 <= s < self.slots.len() && self.slots[s] == Some(t)
    }

    /// Whether ticket `t` is done, running on some slot, or waiting.
    pub open spec fn accounted(self, t: u64) -> bool {
        ||| self.finished.contains(t)
        ||| exists|s: int| #[trigger] self.runs(s, t)
        ||| self.queue.contains(t)
    }

    /// Whether slot `s` runs an operation.
    pub open spec fn busy(self, s: int) -> bool {
        self.slots[s] is Some
    }

    /// The dispatcher's invariant:
    /// - there is at least one slot;
    /// - no ticket runs on two slots;
    /// - the queue holds issued tickets in submission order;
    /// - an operation waits only while every slot is busy;
    /// - every running operation was submitted before every waiting one;
    /// - every ticket issued is done, running or waiting: none is lost;
    /// - with a single slot, operations run one after another in
    ///   submission order: tickets 0 to f-1 are done, f runs, the rest wait.
    pub open spec fn wf(self) -> bool {
        &&& self.slots.len() >= 1
        &&& forall|s: int|
            0 <= s < self.slots.len() && self.busy(s) ==> (#[trigger] self.slots[s])->0 < self.next_ticket
        &&& forall|s1: int, s2: int|
            0 <= s1 < self.slots.len() && 0 <= s2 < self.slots.len() && s1 != s2 && self.busy(s1)
                && self.busy(s2) ==> (#[trigger] self.slots[s1])->0 != (#[trigger] self.slots[s2])->0
        &&& forall|i: int, j: int|
            0 <= i < j < self.queue.len() ==> #[trigger] self.queue[i] < #[trigger] self.queue[j]
        &&& forall|i: int| 0 <= i < self.queue.len() ==> #[trigger] self.queue[i] < self.next_ticket
        &&& self.queue.len() > 0 ==> !has_idle(self.slots)
        &&& forall|s: int, i: int|
            0 <= s < self.slots.len() && self.busy(s) && 0 <= i < self.queue.len()
                ==> (#[trigger] self.slots[s])->0 < #[trigger] self.queue[i]
        &&& forall|t: u64| t < self.next_ticket ==> #[trigger] self.accounted(t)
        &&& self.slots.len() == 1 ==> self.serial()
    }

    /// With one slot: completed tickets are 0, 1, 2, ... in that order;
    /// the slot runs the next one, and the queue holds those after it.
    pub open spec fn serial(self) -> bool {
        let f = self.finished.len();
        &&& forall|i: int| 0 <= i < f ==> #[trigger] self.finished[i] == i
        &&& match self.slots[0] {
            Some(t) => {
                &&& t == f
                &&& self.queue.len() == self.next_ticket - f - 1
                &&& forall|i: int| 0 <= i < self.queue.len() ==> #[trigger] self.queue[i] == f + 1 + i
            },
            None => self.queue.len() == 0 && self.next_ticket == f,
        }
    }
}

impl WorkerPool {
    pub open spec fn wf(&self) -> bool {
        self@.wf()
    }

    /// A pool of `size` idle slots with an empty queue.
    pub fn new(size: usize) -> (r: WorkerPool)
        requires
            size >= 1,
        ensures
            r.wf(),
            r@.slots.len() == size,
            forall|s: int| 0 <= s < size ==> #[trigger] r@.slots[s] is None,
            r@.queue.len() == 0,
            r@.next_ticket == 0,
            !r@.closed,
            r@.finished.len() == 0,
    {
        let mut slots: Vec<Option<u64>> = Vec::new();
        let mut i: usize = 0;
        while i < size
            invariant
                i <= size,
                slots@.len() == i,
                forall|s: int| 0 <= s < i ==> #[trigger] slots@[s] is None,
            decreases size - i,
        {
            slots.push(None);
            i += 1;
        }
        WorkerPool { slots, queue: Vec::new(), next_ticket: 0, closed: false, finished: Ghost(Seq::empty()) }
    }

    /// The number of slots; it never changes.
    pub fn size(&self) -> (r: usize)
        ensures
            r == self@.slots.len(),
    {
        self.slots.len()
    }

    /// How many operations wait for a slot.
    pub fn waiting(&self) -> (r: usize)
        ensures
            r == self@.queue.len(),
    {
        self.queue.len()
    }

    /// The ticket that slot `slot` runs, if any.
    pub fn running(&self, slot: usize) -> (r: Option<u64>)
        requires
            slot < self@.slots.len(),
        ensures
            r == self@.slots[slot as int],
    {
        self.slots[slot]
    }

    fn idle_slot(&self) -> (r: Option<usize>)
        ensures
            match r {
                Some(s) => s < self@.slots.len() && self@.slots[s as int] is None,
                None => !has_idle(self@.slots),
            },
    {
        let mut i: usize = 0;
        while i < self.slots.len()
            invariant
                i <= self.slots@.len(),
                forall|s: int| 0 <= s < i ==> #[trigger] self.slots@[s] is Some,
            decreases self.slots.len() - i,
        {
            if self.slots[i].is_none() {
                return Some(i);
            }
            i += 1;
        }
        None
    }

    /// Takes an operation: it starts on an idle slot if there is one, else
    /// it waits at the back of the queue. A closed pool, or one that has
    /// issued every ticket, refuses it.
    pub fn submit(&mut self) -> (r: Result<Dispatch, Error>)
        requires
            old(self).wf(),
        ensures
            final(self).wf(),
            final(self)@.slots.len() == old(self)@.slots.len(),
            final(self)@.closed == old(self)@.closed,
            final(self)@.finished == old(self)@.finished,
            old(self)@.closed || old(self)@.next_ticket == u64::MAX ==> r == Err::<Dispatch, Error>(
                Error::Dispatch,
            ) && final(self)@ == old(self)@,
            !old(self)@.closed && old(self)@.next_ticket < u64::MAX ==> {
                let t = old(self)@.next_ticket;
                &&& final(self)@.next_ticket == t + 1
                &&& if has_idle(old(self)@.slots) {
                    &&& r matches Ok(Dispatch::Start { slot, ticket })
                    &&& ticket == t
                    &&& slot < old(self)@.slots.len()
                    &&& old(self)@.slots[slot as int] is None
                    &&& final(self)@.slots == old(self)@.slots.update(slot as int, Some(t))
                    &&& final(self)@.queue == old(self)@.queue
                } else {
                    &&& r == Ok::<Dispatch, Error>(Dispatch::Queued { ticket: t })
                    &&& final(self)@.slots == old(self)@.slots
                    &&& final(self)@.queue == old(self)@.queue.push(t)
                }
            },
    {
        if self.closed || self.next_ticket == u64::MAX {
            return Err(Error::Dispatch);
        }
        let t = self.next_ticket;
        let ghost pre = self@;
        match self.idle_slot() {
            Some(s) => {
                assert(pre.queue.len() == 0);
                self.slots.set(s, Some(t));
                self.next_ticket = t + 1;
                let ghost post = self@;
                assert forall|s1: int, s2: int|
                    0 <= s1 < post.slots.len() && 0 <= s2 < post.slots.len() && s1 != s2
                        && post.busy(s1) && post.busy(s2) implies (#[trigger] post.slots[s1])->0
                    != (#[trigger] post.slots[s2])->0 by {
                    if s1 != s && s2 != s {
                        assert(pre.slots[s1] == post.slots[s1] && pre.slots[s2] == post.slots[s2]);
                    } else if s1 == s {
                        assert(pre.slots[s2] == post.slots[s2]);
                    } else {
                        assert(pre.slots[s1] == post.slots[s1]);
                    }
                }
                assert forall|s1: int| 0 <= s1 < post.slots.len() && post.busy(s1) implies (#[trigger] post.slots[s1])->0
                    < post.next_ticket by {
                    if s1 != s {
                        assert(pre.slots[s1] == post.slots[s1]);
                    }
                }
                assert forall|u: u64| u < post.next_ticket implies #[trigger] post.accounted(u) by {
                    if u == t {
                        assert(post.runs(s as int, u));
                    } else {
                        assert(pre.accounted(u));
                        if exists|s1: int| #[trigger] pre.runs(s1, u) {
                            let s1 = choose|s1: int| #[trigger] pre.runs(s1, u);
                            assert(s1 != s);
                            assert(post.runs(s1, u));
                        }
                    }
                }
                Ok(Dispatch::Start { slot: s, ticket: t })
            },
            None => {
                self.queue.push(t);
                self.next_ticket = t + 1;
                let ghost post = self@;
                assert forall|i: int, j: int| 0 <= i < j < post.queue.len() implies #[trigger] post.queue[i]
                    < #[trigger] post.queue[j] by {
                    assert(post.queue[i] == pre.queue[i]);
                    if j < pre.queue.len() {
                        assert(post.queue[j] == pre.queue[j]);
                    }
                }
                assert forall|sl: int, i: int|
                    0 <= sl < post.slots.len() && post.busy(sl) && 0 <= i < post.queue.len()
                        implies (#[trigger] post.slots[sl])->0 < #[trigger] post.queue[i] by {
                    if i < pre.queue.len() {
                        assert(post.queue[i] == pre.queue[i]);
                    }
                }
                assert(post.queue.len() > 0 ==> !has_idle(post.slots));
                assert forall|u: u64| u < post.next_ticket implies #[trigger] post.accounted(u) by {
                    if u == t {
                        assert(post.queue[post.queue.len() - 1] == u);
                    } else {
                        assert(pre.accounted(u));
                        if pre.queue.contains(u) {
                            let i = choose|i: int| 0 <= i < pre.queue.len() && pre.queue[i] == u;
                            assert(post.queue[i] == u);
                        }
                        if exists|s1: int| #[trigger] pre.runs(s1, u) {
                            let s1 = choose|s1: int| #[trigger] pre.runs(s1, u);
                            assert(post.runs(s1, u));
                        }
                    }
                }
                assert(post.slots == pre.slots);
                assert forall|s1: int|
                    0 <= s1 < post.slots.len() && post.busy(s1) implies (#[trigger] post.slots[s1])->0
                    < post.next_ticket by {
                    assert(pre.slots[s1] == post.slots[s1]);
                }
                assert forall|i: int| 0 <= i < post.queue.len() implies #[trigger] post.queue[i]
                    < post.next_ticket by {
                    if i < pre.queue.len() {
                        assert(post.queue[i] == pre.queue[i]);
                    }
                }
                Ok(Dispatch::Queued { ticket: t })
            },
        }
    }

    /// Records that slot `slot` finished its operation. The oldest waiting
    /// operation, if any, starts on that slot at once and its ticket is
    /// returned; otherwise the slot turns idle.
    pub fn complete(&mut self, slot: usize) -> (r: Option<u64>)
        requires
            old(self).wf(),
            slot < old(self)@.slots.len(),
            old(self)@.slots[slot as int] is Some,
        ensures
            final(self).wf(),
            final(self)@.slots.len() == old(self)@.slots.len(),
            final(self)@.next_ticket == old(self)@.next_ticket,
            final(self)@.closed == old(self)@.closed,
            final(self)@.finished == old(self)@.finished.push(old(self)@.slots[slot as int]->0),
            old(self)@.queue.len() > 0 ==> {
                &&& r == Some(old(self)@.queue[0])
                &&& final(self)@.slots == old(self)@.slots.update(slot as int, Some(old(self)@.queue[0]))
                &&& final(self)@.queue == old(self)@.queue.drop_first()
            },
            old(self)@.queue.len() == 0 ==> {
                &&& r is None
                &&& final(self)@.slots == old(self)@.slots.update(slot as int, None)
                &&& final(self)@.queue == old(self)@.queue
            },
    {
        let ghost pre = self@;
        let ghost done = pre.slots[slot as int]->0;
        self.finished = Ghost(self.finished@.push(done));
        if self.queue.len() > 0 {
            let t = self.queue.remove(0);
            self.slots.set(slot, Some(t));
            let ghost post = self@;
            assert(post.queue =~= pre.queue.drop_first());
            assert forall|s1: int, s2: int|
                0 <= s1 < post.slots.len() && 0 <= s2 < post.slots.len() && s1 != s2 && post.busy(s1)
                    && post.busy(s2) implies (#[trigger] post.slots[s1])->0 != (#[trigger] post.slots[s2])->0 by {
                if s1 != slot as int && s2 != slot as int {
                    assert(pre.slots[s1] == post.slots[s1] && pre.slots[s2] == post.slots[s2]);
                } else if s1 == slot as int {
                    assert(pre.slots[s2] == post.slots[s2]);
                    assert(pre.slots[s2]->0 < pre.queue[0]);
                } else {
                    assert(pre.slots[s1] == post.slots[s1]);
                    assert(pre.slots[s1]->0 < pre.queue[0]);
                }
            }
            assert forall|s1: int| 0 <= s1 < post.slots.len() && post.busy(s1) implies (#[trigger] post.slots[s1])->0
                < post.next_ticket by {
                if s1 != slot as int {
                    assert(pre.slots[s1] == post.slots[s1]);
                }
            }
            assert forall|i: int, j: int| 0 <= i < j < post.queue.len() implies #[trigger] post.queue[i]
                < #[trigger] post.queue[j] by {
                assert(post.queue[i] == pre.queue[i + 1] && post.queue[j] == pre.queue[j + 1]);
            }
            assert forall|i: int| 0 <= i < post.queue.len() implies #[trigger] post.queue[i] < post.next_ticket by {
                assert(post.queue[i] == pre.queue[i + 1]);
            }
            assert forall|sl: int, i: int|
                0 <= sl < post.slots.len() && post.busy(sl) && 0 <= i < post.queue.len()
                    implies (#[trigger] post.slots[sl])->0 < #[trigger] post.queue[i] by {
                assert(post.queue[i] == pre.queue[i + 1]);
                if sl != slot as int {
                    assert(pre.slots[sl] == post.slots[sl]);
                } else {
                    assert(pre.queue[0] < pre.queue[i + 1]);
                }
            }
            assert(post.queue.len() > 0 ==> !has_idle(post.slots)) by {
                if post.queue.len() > 0 && has_idle(post.slots) {
                    let s = choose|s: int| 0 <= s < post.slots.len() && #[trigger] post.slots[s] is None;
                    assert(pre.slots[s] == post.slots[s]);
                }
            }
            if self.slots.len() == 1 {
                assert forall|i: int| 0 <= i < post.finished.len() implies #[trigger] post.finished[i] == i by {
                    if i < pre.finished.len() {
                        assert(post.finished[i] == pre.finished[i]);
                    }
                }
                assert forall|i: int| 0 <= i < post.queue.len() implies #[trigger] post.queue[i]
                    == post.finished.len() + 1 + i by {
                    assert(post.queue[i] == pre.queue[i + 1]);
                }
            }
            assert forall|u: u64| u < post.next_ticket implies #[trigger] post.accounted(u) by {
                assert(pre.accounted(u));
                if pre.finished.contains(u) {
                    let i = choose|i: int| 0 <= i < pre.finished.len() && pre.finished[i] == u;
                    assert(post.finished[i] == u);
                } else if exists|s1: int| #[trigger] pre.runs(s1, u) {
                    let s1 = choose|s1: int| #[trigger] pre.runs(s1, u);
                    if s1 == slot as int {
                        assert(post.finished[post.finished.len() - 1] == u);
                    } else {
                        assert(post.runs(s1, u));
                    }
                } else {
                    let i = choose|i: int| 0 <= i < pre.queue.len() && pre.queue[i] == u;
                    if i == 0 {
                        assert(post.runs(slot as int, u));
                    } else {
                        assert(post.queue[i - 1] == u);
                    }
                }
            }
            Some(t)
        } else {
            self.slots.set(slot, None);
            let ghost post = self@;
            assert forall|s1: int, s2: int|
                0 <= s1 < post.slots.len() && 0 <= s2 < post.slots.len() && s1 != s2 && post.busy(s1)
                    && post.busy(s2) implies (#[trigger] post.slots[s1])->0 != (#[trigger] post.slots[s2])->0 by {
                assert(pre.slots[s1] == post.slots[s1] && pre.slots[s2] == post.slots[s2]);
            }
            assert forall|s1: int| 0 <= s1 < post.slots.len() && post.busy(s1) implies (#[trigger] post.slots[s1])->0
                < post.next_ticket by {
                assert(pre.slots[s1] == post.slots[s1]);
            }
            if self.slots.len() == 1 {
                assert forall|i: int| 0 <= i < post.finished.len() implies #[trigger] post.finished[i] == i by {
                    if i < pre.finished.len() {
                        assert(post.finished[i] == pre.finished[i]);
                    }
                }
            }
            assert forall|u: u64| u < post.next_ticket implies #[trigger] post.accounted(u) by {
                assert(pre.accounted(u));
                if pre.finished.contains(u) {
                    let i = choose|i: int| 0 <= i < pre.finished.len() && pre.finished[i] == u;
                    assert(post.finished[i] == u);
                } else if exists|s1: int| #[trigger] pre.runs(s1, u) {
                    let s1 = choose|s1: int| #[trigger] pre.runs(s1, u);
                    if s1 == slot as int {
                        assert(post.finished[post.finished.len() - 1] == u);
                    } else {
                        assert(post.runs(s1, u));
                    }
                }
            }
            None
        }
    }

    /// Stops taking operations; those already running or waiting still run.
    pub fn shutdown(&mut self)
        requires
            old(self).wf(),
        ensures
            final(self).wf(),
            final(self)@ == (PoolView { closed: true, ..old(self)@ }),
    {
        let ghost pre = self@;
        self.closed = true;
        let ghost post = self@;
        assert forall|u: u64| u < post.next_ticket implies #[trigger] post.accounted(u) by {
            assert(pre.accounted(u));
            if exists|s1: int| #[trigger] pre.runs(s1, u) {
                let s1 = choose|s1: int| #[trigger] pre.runs(s1, u);
                assert(post.runs(s1, u));
            }
        }
    }
}

/// With a single slot, operations never overlap and complete in the order
/// they were submitted: the i-th completion is ticket i, the slot runs the
/// oldest unfinished ticket, and every other unfinished one waits.
pub proof fn lemma_single_slot_serial(p: PoolView)
    requires
        p.wf(),
        p.slots.len() == 1,
    ensures
        forall|i: int| 0 <= i < p.finished.len() ==> #[trigger] p.finished[i] == i,
        p.slots[0] matches Some(t) ==> t == p.finished.len(),
        forall|i: int| 0 <= i < p.queue.len() ==> #[trigger] p.queue[i] == p.finished.len() + 1 + i,
        p.next_ticket == p.finished.len() + (if p.slots[0] is Some { 1 + p.queue.len() } else { 0 }),
{
}

/// No submitted operation is ever lost: each ticket issued so far has
/// completed, is running on a slot, or waits in the queue.
pub proof fn lemma_no_lost_ticket(p: PoolView, t: u64)
    requires
        p.wf(),
        t < p.next_ticket,
    ensures
        p.accounted(t),
{
}

/// No two slots ever run the same operation, and an operation waits only
/// while every slot is busy.
pub proof fn lemma_no_shared_ticket(p: PoolView, s1: int, s2: int)
    requires
        p.wf(),
        0 <= s1 < p.slots.len(),
        0 <= s2 < p.slots.len(),
        s1 != s2,
        p.slots[s1] is Some,
        p.slots[s2] is Some,
    ensures
        p.slots[s1]->0 != p.slots[s2]->0,
        p.queue.len() > 0 ==> forall|s: int| 0 <= s < p.slots.len() ==> #[trigger] p.slots[s] is Some,
{
}

} // verus!
