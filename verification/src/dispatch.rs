//! Per-task dispatch state machines.
//!
//! A hardware-bound task is driven directly by its interrupt vector: the
//! vector's pending flag is set by [`HwTaskState::activate`] and persists
//! while the task runs, so a reactivation arriving mid-run is recorded,
//! never lost.  Software-dispatched tasks of one priority level share a
//! [`PendingSet`]: a coalescing FIFO of task identities drained by the
//! level's handler in submission order.

use vstd::prelude::*;

verus! {

/// The interrupt-controller state of one hardware-bound task: whether its
/// handler is on the stack (`running`) and whether its vector is asserted
/// (`pending`).  The task re-enters `running` from `pending` once the
/// handler has returned and the priority permits.
#[derive(Clone, Copy, PartialEq, Eq, Structural, Debug)]
pub struct HwTaskState {
    pub running: bool,
    pub pending: bool,
}

impl HwTaskState {
    /// The idle state: not running, vector clear.
    pub fn new() -> (s: HwTaskState)
        ensures
            !s.running,
            !s.pending,
    {
        HwTaskState { running: false, pending: false }
    }

    /// The interrupt fires (or software pends the vector).  The pending flag
    /// is set whatever the task is doing: a reactivation while running is
    /// recorded by the still-asserted vector and is never lost.
    pub fn activate(&mut self)
        ensures
            final(self).pending,
            final(self).running == old(self).running,
    {
        self.pending = true;
    }

    /// The interrupt controller takes the asserted vector: the task starts
    /// to run and the vector is acknowledged.
    pub fn start(&mut self)
        requires
            old(self).pending,
            !old(self).running,
        ensures
            final(self).running,
            !final(self).pending,
    {
        self.running = true;
        self.pending = false;
    }

    /// The handler returns.  A reactivation recorded while it ran keeps the
    /// vector asserted, so the task will run again.
    pub fn finish(&mut self)
        requires
            old(self).running,
        ensures
            !final(self).running,
            final(self).pending == old(self).pending,
    {
        self.running = false;
    }
}

/// No task identity appears twice.
pub open spec fn nodup(s: Seq<usize>) -> bool {
    forall|i: int, j: int| 0 <= i < j < s.len() ==> s[i] != s[j]
}

/// What marking `id` ready does to a pending set: nothing if it is already
/// pending (the re-activation coalesces), else it joins the back of the
/// FIFO.
pub open spec fn mark_model(s: Seq<usize>, id: usize) -> Seq<usize> {
    if s.contains(id) {
        s
    } else {
        s.push(id)
    }
}

/// The pending set of one software-dispatched priority level: the
/// identities of the tasks marked ready, in submission order.
pub struct PendingSet {
    pub queue: Vec<usize>,
}

impl PendingSet {
    /// A pending set holds at most one activation per task.
    pub open spec fn wf(self) -> bool {
        nodup(self.queue@)
    }

    /// An empty level: no task pending.
    pub fn new() -> (s: PendingSet)
        ensures
            s.wf(),
            s.queue@ =~= Seq::<usize>::empty(),
    {
        PendingSet { queue: Vec::new() }
    }

    /// Mark a task ready.  Re-marking an already-pending task is a no-op:
    /// activations coalesce, they are not queued twice.
    pub fn mark(&mut self, id: usize)
        requires
            old(self).wf(),
        ensures
            final(self).wf(),
            final(self).queue@ == mark_model(old(self).queue@, id),
            final(self).queue@.contains(id),
    {
        let mut k: usize = 0;
        loop
            invariant_except_break
                self.wf(),
                *self == *old(self),
                k <= self.queue@.len(),
                forall|j: int| 0 <= j < k ==> (#[trigger] self.queue@[j]) != id,
            ensures
                *self == *old(self),
                k <= self.queue@.len(),
                forall|j: int| 0 <= j < k ==> (#[trigger] self.queue@[j]) != id,
                k < self.queue@.len() ==> self.queue@[k as int] == id,
                k == self.queue@.len() ==> !self.queue@.contains(id),
            decreases self.queue@.len() - k,
        {
            if k == self.queue.len() {
                break ;
            }
            if self.queue[k] == id {
                break ;
            }
            k = k + 1;
        }
        if k == self.queue.len() {
            self.queue.push(id);
            proof {
                lemma_mark_coalesces(old(self).queue@, id);
            }
        }
    }

    /// Take the next task in FIFO order, or report the level drained.
    pub fn pop(&mut self) -> (r: Option<usize>)
        requires
            old(self).wf(),
        ensures
            final(self).wf(),
            match r {
                Some(id) => old(self).queue@.len() > 0 && id == old(self).queue@[0]
                    && final(self).queue@ == old(self).queue@.drop_first(),
                None => old(self).queue@.len() == 0 && final(self).queue@ == old(self).queue@,
            },
    {
        if self.queue.len() == 0 {
            None
        } else {
            let id = self.queue.remove(0);
            proof {
                assert(self.queue@ =~= old(self).queue@.drop_first());
            }
            Some(id)
        }
    }

    /// Take every pending task at once, in submission order, leaving the
    /// level empty — the shape of the level handler's drain loop.
    pub fn drain(&mut self) -> (order: Vec<usize>)
        requires
            old(self).wf(),
        ensures
            final(self).wf(),
            order@ == old(self).queue@,
            final(self).queue@ =~= Seq::<usize>::empty(),
    {
        let mut order: Vec<usize> = Vec::new();
        loop
            invariant_except_break
                self.wf(),
                old(self).queue@ == order@ + self.queue@,
            ensures
                self.wf(),
                order@ == old(self).queue@,
                self.queue@ =~= Seq::<usize>::empty(),
            decreases self.queue@.len(),
        {
            if self.queue.len() == 0 {
                proof {
                    assert(order@ =~= order@ + self.queue@);
                }
                break ;
            }
            let ghost s = self.queue@;
            let id = self.queue.remove(0);
            order.push(id);
            proof {
                assert(self.queue@ =~= s.drop_first());
                assert(order@.drop_last() + s =~= order@ + self.queue@);
                assert(old(self).queue@ == order@.drop_last() + s);
            }
        }
        order
    }
}

/// Coalescing keeps the pending set sound: after marking a task ready it is
/// pending exactly once — the mark is never lost and never duplicated — and
/// marking an already-pending task changes nothing.
pub proof fn lemma_mark_coalesces(s: Seq<usize>, id: usize)
    requires
        nodup(s),
    ensures
        nodup(mark_model(s, id)),
        mark_model(s, id).contains(id),
        s.contains(id) ==> mark_model(s, id) == s,
{
    if !s.contains(id) {
        let m = s.push(id);
        assert forall|i: int, j: int| 0 <= i < j < m.len() implies m[i] != m[j] by {
            if j < m.len() - 1 {
                assert(m[i] == s[i] && m[j] == s[j]);
            } else {
                assert(m[j] == id);
                assert(m[i] == s[i]);
                assert(!s.contains(id));
            }
        }
        assert(m[s.len() as int] == id);
    } else {
        let k = choose|k: int| 0 <= k < s.len() && s[k] == id;
        assert(s[k] == id);
    }
}

} // verus!
