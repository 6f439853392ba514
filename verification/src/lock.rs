//! The critical-section primitive and the Immediate Priority Ceiling
//! Protocol.
//!
//! A lock on a resource raises the effective interrupt priority threshold to
//! the resource's ceiling and restores, on exit, exactly the threshold that
//! was active before — a stack discipline, not a single global value.  The
//! protocol never waits: entering a critical section always succeeds, which
//! is why it is deadlock-free by construction.  Two interchangeable masking
//! strategies stand behind the one interface: masking all interrupts
//! globally, or masking only up to the ceiling.

use vstd::prelude::*;
use crate::analysis::Task;
use crate::analysis::is_ceiling;
use crate::analysis::task_accesses;

verus! {

/// The two interchangeable backend masking strategies, chosen once at build
/// configuration time.
#[derive(Clone, Copy, PartialEq, Eq, Structural, Debug)]
pub enum MaskStrategy {
    /// Disable all interrupts for the critical section.
    GlobalMask,
    /// Raise the priority threshold only to the resource's ceiling.
    PriorityThreshold,
}

/// The process-wide masking state: the effective priority threshold,
/// initialized once at startup and mutated only through the
/// [`enter`](ThresholdStack::enter)/[`exit`](ThresholdStack::exit) pair,
/// together with the stack of thresholds saved by nested entries.
pub struct ThresholdStack {
    pub strategy: MaskStrategy,
    pub max_priority: u8,
    pub current: u8,
    pub saved: Vec<u8>,
}

impl ThresholdStack {
    /// Well-formedness: thresholds stay within the hardware bound, nested
    /// saves only ever grow (a critical section never lowers the mask), and
    /// the outermost save is the idle threshold, so a fully unwound stack
    /// masks nothing.
    pub open spec fn wf(self) -> bool {
        &&& self.current <= self.max_priority
        &&& forall|i: int| 0 <= i < self.saved@.len() ==> (#[trigger] self.saved@[i])
            <= self.max_priority
        &&& forall|i: int, j: int|
            0 <= i < j < self.saved@.len() ==> self.saved@[i] <= self.saved@[j]
        &&& self.saved@.len() > 0 ==> self.saved@.last() <= self.current
        &&& self.saved@.len() > 0 ==> self.saved@[0] == 0
        &&& self.saved@.len() == 0 ==> self.current == 0
    }

    /// The startup state: nothing masked, no section entered.
    pub fn new(strategy: MaskStrategy, max_priority: u8) -> (s: ThresholdStack)
        ensures
            s.wf(),
            s.strategy == strategy,
            s.max_priority == max_priority,
            s.current == 0,
            s.saved@ =~= Seq::<u8>::empty(),
    {
        ThresholdStack { strategy, max_priority, current: 0, saved: Vec::new() }
    }

    /// Enter a critical section for a resource with the given ceiling: save
    /// the active threshold and raise it — to the ceiling (never lowering
    /// it) under `PriorityThreshold`, to the hardware maximum under
    /// `GlobalMask`.  Entering never blocks and never fails.
    pub fn enter(&mut self, ceiling: u8)
        requires
            old(self).wf(),
            ceiling <= old(self).max_priority,
        ensures
            final(self).wf(),
            final(self).strategy == old(self).strategy,
            final(self).max_priority == old(self).max_priority,
            final(self).saved@ == old(self).saved@.push(old(self).current),
            final(self).current == match old(self).strategy {
                MaskStrategy::GlobalMask => old(self).max_priority,
                MaskStrategy::PriorityThreshold => if old(self).current >= ceiling {
                    old(self).current
                } else {
                    ceiling
                },
            },
            final(self).current >= ceiling,
            final(self).current >= old(self).current,
    {
        self.saved.push(self.current);
        match self.strategy {
            MaskStrategy::GlobalMask => {
                self.current = self.max_priority;
            },
            MaskStrategy::PriorityThreshold => {
                if ceiling > self.current {
                    self.current = ceiling;
                }
            },
        }
    }

    /// Leave the innermost critical section, restoring exactly the threshold
    /// active immediately before the matching [`enter`](Self::enter): the
    /// prior protection level is never silently widened or narrowed.
    pub fn exit(&mut self)
        requires
            old(self).wf(),
            old(self).saved@.len() > 0,
        ensures
            final(self).wf(),
            final(self).strategy == old(self).strategy,
            final(self).max_priority == old(self).max_priority,
            final(self).current == old(self).saved@.last(),
            final(self).saved@ == old(self).saved@.drop_last(),
    {
        let restored = self.saved.pop().unwrap();
        self.current = restored;
    }
}

/// A shared resource: its computed lock ceiling and the data it protects.
/// The system owns the resource; a task only ever obtains a borrow of the
/// data through [`claim`](Resource::claim), while the masking threshold
/// stands at the ceiling or above.
pub struct Resource<T> {
    pub ceiling: u8,
    pub data: T,
}

impl<T> Resource<T> {
    /// Wrap `data` under the ceiling the analysis computed for it.
    pub fn new(ceiling: u8, data: T) -> (r: Resource<T>)
        ensures
            r.ceiling == ceiling,
            r.data == data,
    {
        Resource { ceiling, data }
    }

    /// Exclusive borrowed access for one critical section.  The caller must
    /// hold the threshold at the ceiling or above — which
    /// [`ThresholdStack::enter`] guarantees — so no task that also accesses
    /// this resource can preempt while the borrow lives.
    pub fn claim(&mut self, mask: &ThresholdStack) -> (r: &mut T)
        requires
            mask.current >= old(self).ceiling,
        ensures
            *r == old(self).data,
            final(self).ceiling == old(self).ceiling,
            final(self).data == *final(r),
    {
        &mut self.data
    }
}

/// Mutual exclusion under the Immediate Priority Ceiling Protocol: while any
/// task holds a resource's ceiling as its masking threshold, every other
/// task that accesses the same resource has priority at most that threshold,
/// so it can never preempt the holder — it can therefore never observe a
/// partially updated resource.  Any task able to preempt (priority above the
/// threshold) has priority above the ceiling and, by the ceiling's
/// definition, touches the resource never.
pub proof fn lemma_ceiling_excludes_sharers(
    tasks: Seq<Task>,
    r: int,
    c: int,
    threshold: int,
    t2: int,
)
    requires
        is_ceiling(tasks, r, c),
        threshold >= c,
        0 <= t2 < tasks.len(),
        task_accesses(tasks[t2], r),
    ensures
        tasks[t2].priority <= threshold,
{
}

} // verus!
