//! The scheduler as one explicit state machine.
//!
//! The processor's interrupt-priority hardware is the only scheduler: this
//! module models it as a preemption stack of running tasks, the per-task and
//! per-level pending state, the ceiling-raised masking threshold of the held
//! locks, and the timer queue, with one operation per hardware event.  Every
//! operation preserves the system invariant, and the invariant is strong
//! enough to prove the Immediate Priority Ceiling Protocol's exclusion
//! guarantee ([`lemma_lock_exclusion`]).

use vstd::prelude::*;
use crate::analysis::Analysis;
use crate::analysis::BuildError;
use crate::analysis::DispatchKind;
use crate::analysis::Task;
use crate::analysis::all_accesses_resolvable;
use crate::analysis::analyze;
use crate::analysis::is_ceiling;
use crate::analysis::no_duplicate_binding;
use crate::analysis::priorities_in_bound;
use crate::analysis::task_accesses;
use crate::dispatch::HwTaskState;
use crate::dispatch::PendingSet;
use crate::dispatch::mark_model;
use crate::lock::lemma_ceiling_excludes_sharers;
use crate::timer::CancelError;
use crate::timer::HALF_RANGE;
use crate::timer::TimerEntry;
use crate::timer::TimerQueue;
use crate::timer::has_handle;
use crate::timer::insert_boundary;
use crate::timer::wrap_dist_spec;

verus! {

/// What the instrumented system records as it runs: task starts and
/// completions, and the critical sections they enter and leave.
#[derive(Clone, Copy, PartialEq, Eq, Structural, Debug)]
pub enum Event {
    /// The task began running.
    Started(usize),
    /// The task's handler returned.
    Finished(usize),
    /// The task raised the threshold to the resource's ceiling.
    EnteredCritical(usize, usize),
    /// The task restored the threshold it saved for the resource.
    ExitedCritical(usize, usize),
}

/// One held lock: the resource, the threshold saved on entry (restored
/// exactly on exit), and where on the preemption stack its holder stands.
#[derive(Clone, Copy, PartialEq, Eq, Structural, Debug)]
pub struct LockFrame {
    pub resource: usize,
    pub prior: u8,
    pub owner_pos: usize,
}

/// The whole scheduling state of one single-core system.
pub struct System {
    /// The static task set, immutable after analysis.
    pub tasks: Vec<Task>,
    /// Per-resource lock ceilings, from the build-time analysis.
    pub ceilings: Vec<u8>,
    /// The highest priority the hardware can represent.
    pub max_priority: u8,
    /// The effective masking threshold raised by the held locks; 0 when
    /// none is held.
    pub threshold: u8,
    /// The held locks, innermost last (strict LIFO).
    pub locks: Vec<LockFrame>,
    /// The preemption stack of running tasks, outermost first.
    pub running: Vec<usize>,
    /// Per-task hardware vector state (pending/running flags).
    pub hw: Vec<HwTaskState>,
    /// One coalescing FIFO pending set per software-dispatch priority
    /// level.
    pub levels: Vec<PendingSet>,
    /// The monotonic timer queue.
    pub timer: TimerQueue,
    /// The instrumentation log.
    pub log: Vec<Event>,
}

impl System {
    /// Priority of task `t`.
    pub open spec fn prio(self, t: int) -> int {
        self.tasks@[t].priority as int
    }

    /// The task currently running: the top of the preemption stack.
    pub open spec fn top(self) -> int
        recommends
            self.running@.len() > 0,
    {
        self.running@[self.running@.len() - 1] as int
    }

    /// The effective priority of the processor: whatever is larger of the
    /// running task's priority and the lock-raised threshold.  Only an
    /// interrupt strictly above it is taken.
    pub open spec fn effective(self) -> int {
        let run = if self.running@.len() > 0 {
            self.prio(self.top())
        } else {
            0
        };
        if run >= self.threshold {
            run
        } else {
            self.threshold as int
        }
    }

    /// Whether an activation of task `t` would be taken now.
    pub open spec fn can_start(self, t: int) -> bool {
        self.prio(t) > self.effective()
    }

    /// A pending hardware-bound task whose interrupt would be taken now.
    pub open spec fn eligible(self, t: int) -> bool {
        &&& 0 <= t < self.tasks@.len()
        &&& self.tasks@[t].dispatch matches DispatchKind::HardwareBound(_)
        &&& self.hw@[t].pending
        &&& !self.hw@[t].running
        &&& self.can_start(t)
    }

    /// Whether an activation of task `t` is recorded: its vector asserted
    /// for a hardware-bound task, its identity pending in its level's set
    /// for a software-dispatched one.
    pub open spec fn activated(self, t: usize) -> bool {
        match self.tasks@[t as int].dispatch {
            DispatchKind::HardwareBound(_) => self.hw@[t as int].pending,
            DispatchKind::SoftwareDispatched(l) => self.levels@[l as int].queue@.contains(t),
        }
    }

    /// The static part of the invariant: the ceilings are exactly what the
    /// analysis computes for the held task set, and everything fits the
    /// hardware bound.
    pub open spec fn wf_static(self) -> bool {
        &&& priorities_in_bound(self.tasks@, self.max_priority as int)
        &&& all_accesses_resolvable(self.tasks@, self.ceilings@.len() as int)
        &&& no_duplicate_binding(self.tasks@)
        &&& forall|ri: int|
            0 <= ri < self.ceilings@.len() ==> is_ceiling(
                self.tasks@,
                ri,
                (#[trigger] self.ceilings@[ri]) as int,
            )
        &&& forall|ri: int|
            0 <= ri < self.ceilings@.len() ==> (#[trigger] self.ceilings@[ri]) <= self.max_priority
    }

    /// Sizes and contents of the dynamic state: one vector slot per task,
    /// one pending set per representable priority level, sets coalesced and
    /// naming only real tasks.
    pub open spec fn wf_state(self) -> bool {
        &&& self.hw@.len() == self.tasks@.len()
        &&& self.levels@.len() == self.max_priority as int + 1
        &&& forall|l: int| 0 <= l < self.levels@.len() ==> (#[trigger] self.levels@[l]).wf()
        &&& forall|l: int, k: int|
            0 <= l < self.levels@.len() && 0 <= k < self.levels@[l].queue@.len() ==> (
            #[trigger] self.levels@[l].queue@[k]) < self.tasks@.len()
    }

    /// The preemption stack holds real tasks in strictly increasing
    /// priority order: a task only ever preempts one of lower priority.
    pub open spec fn wf_running(self) -> bool {
        &&& forall|i: int| 0 <= i < self.running@.len() ==> (#[trigger] self.running@[i])
            < self.tasks@.len()
        &&& forall|i: int, j: int|
            0 <= i < j < self.running@.len() ==> self.prio((#[trigger] self.running@[i]) as int)
                < self.prio((#[trigger] self.running@[j]) as int)
    }

    /// The locking discipline: the threshold covers the ceiling of every
    /// held resource; saved thresholds only grow inwards, the outermost
    /// being the idle threshold 0; every holder is on the stack, and every
    /// task that preempted a holder runs above the held ceiling.
    pub open spec fn wf_locks(self) -> bool {
        &&& self.threshold <= self.max_priority
        &&& forall|k: int| 0 <= k < self.locks@.len() ==> (#[trigger] self.locks@[k]).resource
            < self.ceilings@.len()
        &&& forall|k: int| 0 <= k < self.locks@.len() ==> (#[trigger] self.locks@[k]).prior
            <= self.max_priority
        &&& forall|k: int| 0 <= k < self.locks@.len() ==> (#[trigger] self.locks@[k]).owner_pos
            < self.running@.len()
        &&& forall|k: int|
            0 <= k < self.locks@.len() ==> self.ceilings@[(#[trigger] self.locks@[k]).resource as int]
                <= self.threshold
        &&& forall|k: int, l: int|
            0 <= k < l < self.locks@.len()
                ==> self.ceilings@[(#[trigger] self.locks@[k]).resource as int] <= (
            #[trigger] self.locks@[l]).prior
        &&& forall|k: int, p: int|
            0 <= k < self.locks@.len() && (#[trigger] self.locks@[k]).owner_pos < p
                < self.running@.len() ==> self.prio((#[trigger] self.running@[p]) as int)
                > self.ceilings@[self.locks@[k].resource as int]
        &&& (self.locks@.len() == 0 ==> self.threshold == 0)
        &&& (self.locks@.len() > 0 ==> self.locks@[0].prior == 0)
    }

    /// The timer queue is well-formed and every queued activation targets a
    /// real task.
    pub open spec fn wf_timer(self) -> bool {
        &&& self.timer.wf()
        &&& forall|i: int| 0 <= i < self.timer.entries@.len() ==> (
        #[trigger] self.timer.entries@[i]).target < self.tasks@.len()
    }

    /// The system invariant: every operation requires and preserves it.
    pub open spec fn wf(self) -> bool {
        &&& self.wf_static()
        &&& self.wf_state()
        &&& self.wf_running()
        &&& self.wf_locks()
        &&& self.wf_timer()
    }

    /// Build a system from the static declaration set: run the analysis
    /// and, if it accepts, wire the initial state — nothing running, nothing
    /// pending, no lock held, the timer empty with its counter at
    /// `start_time`.  Fails exactly when the analysis fails, with the same
    /// attributable diagnostic.
    pub fn new(tasks: Vec<Task>, n_resources: usize, max_priority: u8, start_time: u32) -> (r:
        Result<System, BuildError>)
        ensures
            r is Ok <==> all_accesses_resolvable(tasks@, n_resources as int)
                && no_duplicate_binding(tasks@) && priorities_in_bound(
                tasks@,
                max_priority as int,
            ),
            match r {
                Ok(sys) => {
                    &&& sys.wf()
                    &&& sys.tasks@ == tasks@
                    &&& sys.ceilings@.len() == n_resources
                    &&& forall|ri: int|
                        0 <= ri < n_resources ==> is_ceiling(
                            tasks@,
                            ri,
                            (#[trigger] sys.ceilings@[ri]) as int,
                        )
                    &&& sys.max_priority == max_priority
                    &&& sys.threshold == 0
                    &&& sys.locks@.len() == 0
                    &&& sys.running@.len() == 0
                    &&& forall|t: int|
                        0 <= t < tasks@.len() ==> !(#[trigger] sys.hw@[t]).pending && !sys.hw@[t].running
                    &&& forall|l: int|
                        0 <= l < sys.levels@.len() ==> (#[trigger] sys.levels@[l]).queue@.len() == 0
                    &&& sys.timer.entries@.len() == 0
                    &&& sys.timer.now == start_time
                    &&& sys.timer.next_handle == 0
                    &&& sys.log@.len() == 0
                },
                Err(_) => true,
            },
    {
        let analysis = match analyze(&tasks, n_resources, max_priority) {
            Ok(a) => a,
            Err(e) => {
                return Err(e);
            },
        };
        let Analysis { ceilings } = analysis;
        let mut hw: Vec<HwTaskState> = Vec::new();
        let mut i: usize = 0;
        while i < tasks.len()
            invariant
                i <= tasks@.len(),
                hw@.len() == i,
                forall|t: int| 0 <= t < i ==> !(#[trigger] hw@[t]).pending && !hw@[t].running,
            decreases tasks@.len() - i,
        {
            hw.push(HwTaskState::new());
            i = i + 1;
        }
        let mut levels: Vec<PendingSet> = Vec::new();
        let mut l: usize = 0;
        while l < max_priority as usize + 1
            invariant
                l <= max_priority as usize + 1,
                levels@.len() == l,
                forall|l2: int|
                    0 <= l2 < l ==> (#[trigger] levels@[l2]).wf() && levels@[l2].queue@.len() == 0,
            decreases max_priority as usize + 1 - l,
        {
            levels.push(PendingSet::new());
            l = l + 1;
        }
        Ok(
            System {
                tasks,
                ceilings,
                max_priority,
                threshold: 0,
                locks: Vec::new(),
                running: Vec::new(),
                hw,
                levels,
                timer: TimerQueue::new(start_time),
                log: Vec::new(),
            },
        )
    }

    /// An activation of task `t` arrives: the interrupt controller records
    /// it.  For a hardware-bound task the vector's pending flag is set —
    /// also while the task runs, so the reactivation persists.  For a
    /// software-dispatched task its identity joins its level's pending set,
    /// coalescing with an activation already recorded.
    pub fn pend(&mut self, t: usize)
        requires
            old(self).wf(),
            t < old(self).tasks@.len(),
        ensures
            final(self).wf(),
            final(self).tasks@ == old(self).tasks@,
            final(self).ceilings@ == old(self).ceilings@,
            final(self).max_priority == old(self).max_priority,
            final(self).threshold == old(self).threshold,
            final(self).locks@ == old(self).locks@,
            final(self).running@ == old(self).running@,
            final(self).timer == old(self).timer,
            final(self).log@ == old(self).log@,
            final(self).activated(t),
            match old(self).tasks@[t as int].dispatch {
                DispatchKind::HardwareBound(_) => {
                    &&& final(self).levels@ == old(self).levels@
                    &&& final(self).hw@ == old(self).hw@.update(
                        t as int,
                        (HwTaskState { running: old(self).hw@[t as int].running, pending: true }),
                    )
                },
                DispatchKind::SoftwareDispatched(l) => {
                    &&& final(self).hw@ == old(self).hw@
                    &&& final(self).levels@[l as int].queue@ == mark_model(
                        old(self).levels@[l as int].queue@,
                        t,
                    )
                    &&& forall|l2: int|
                        0 <= l2 < old(self).levels@.len() && l2 != l as int ==> (
                        #[trigger] final(self).levels@[l2]) == old(self).levels@[l2]
                },
            },
    {
        match self.tasks[t].dispatch {
            DispatchKind::HardwareBound(_) => {
                let was = self.hw[t];
                self.hw[t] = HwTaskState { running: was.running, pending: true };
            },
            DispatchKind::SoftwareDispatched(l) => {
                self.levels[l as usize].mark(t);
            },
        }
    }

    /// The interrupt controller takes the highest-priority asserted vector
    /// that stands above the effective priority — ties resolved by the
    /// build-time controller order, here the lower task identity — and the
    /// task starts, preempting the stack below it.  `None` when nothing
    /// eligible is pending; the processor state is then untouched.
    pub fn take_interrupt(&mut self) -> (r: Option<usize>)
        requires
            old(self).wf(),
        ensures
            final(self).wf(),
            final(self).tasks@ == old(self).tasks@,
            final(self).ceilings@ == old(self).ceilings@,
            final(self).max_priority == old(self).max_priority,
            final(self).threshold == old(self).threshold,
            final(self).locks@ == old(self).locks@,
            final(self).levels@ == old(self).levels@,
            final(self).timer == old(self).timer,
            match r {
                Some(t) => {
                    &&& old(self).eligible(t as int)
                    &&& forall|t2: int|
                        old(self).eligible(t2) ==> old(self).prio(t2) < old(self).prio(t as int)
                            || (old(self).prio(t2) == old(self).prio(t as int) && t <= t2)
                    &&& final(self).running@ == old(self).running@.push(t)
                    &&& final(self).hw@ == old(self).hw@.update(
                        t as int,
                        (HwTaskState { running: true, pending: false }),
                    )
                    &&& final(self).log@ == old(self).log@.push(Event::Started(t))
                },
                None => {
                    &&& forall|t2: int| !old(self).eligible(t2)
                    &&& final(self).running@ == old(self).running@
                    &&& final(self).hw@ == old(self).hw@
                    &&& final(self).log@ == old(self).log@
                },
            },
    {
        let mut best: Option<usize> = None;
        let mut t: usize = 0;
        while t < self.tasks.len()
            invariant
                self.wf(),
                t <= self.tasks@.len(),
                match best {
                    Some(b) => {
                        &&& self.eligible(b as int)
                        &&& b < t
                        &&& forall|t2: int|
                            0 <= t2 < t && self.eligible(t2) ==> self.prio(t2) < self.prio(b as int)
                                || (self.prio(t2) == self.prio(b as int) && b <= t2)
                    },
                    None => forall|t2: int| 0 <= t2 < t ==> !self.eligible(t2),
                },
            decreases self.tasks@.len() - t,
        {
            let hw_ok = match self.tasks[t].dispatch {
                DispatchKind::HardwareBound(_) => true,
                DispatchKind::SoftwareDispatched(_) => false,
            };
            if hw_ok && self.hw[t].pending && !self.hw[t].running {
                let run_prio = if self.running.len() > 0 {
                    self.tasks[self.running[self.running.len() - 1]].priority
                } else {
                    0
                };
                let eff = if run_prio >= self.threshold {
                    run_prio
                } else {
                    self.threshold
                };
                if self.tasks[t].priority > eff {
                    let better = match best {
                        Some(b) => self.tasks[t].priority > self.tasks[b].priority,
                        None => true,
                    };
                    if better {
                        best = Some(t);
                    }
                }
            }
            t = t + 1;
        }
        match best {
            Some(t) => {
                let ghost pre = *self;
                self.hw[t] = HwTaskState { running: true, pending: false };
                self.running.push(t);
                self.log.push(Event::Started(t));
                proof {
                    assert forall|i: int, j: int|
                        0 <= i < j < self.running@.len() implies self.prio(
                        (#[trigger] self.running@[i]) as int,
                    ) < self.prio((#[trigger] self.running@[j]) as int) by {
                        if j == self.running@.len() - 1 {
                            assert(self.running@[j] == t);
                            assert(pre.eligible(t as int));
                            if i < pre.running@.len() - 1 {
                                assert(pre.prio(pre.running@[i] as int) < pre.prio(
                                    pre.running@[pre.running@.len() - 1] as int,
                                ));
                            }
                        }
                    }
                    assert forall|k: int, p: int|
                        0 <= k < self.locks@.len() && (#[trigger] self.locks@[k]).owner_pos < p
                            < self.running@.len() implies self.prio(
                        (#[trigger] self.running@[p]) as int,
                    ) > self.ceilings@[self.locks@[k].resource as int] by {
                        if p == self.running@.len() - 1 {
                            assert(self.running@[p] == t);
                            assert(pre.prio(t as int) > pre.effective());
                            assert(pre.effective() >= pre.threshold);
                            assert(pre.ceilings@[pre.locks@[k].resource as int] <= pre.threshold);
                        }
                    }
                    assert(self.wf());
                }
                Some(t)
            },
            None => None,
        }
    }

    /// The running task enters the critical section for resource `r`, which
    /// its declared access list names: the active threshold is saved in the
    /// lock frame and raised to `r`'s ceiling (never lowered).  Entering
    /// never blocks.
    pub fn lock(&mut self, r: usize)
        requires
            old(self).wf(),
            old(self).running@.len() > 0,
            r < old(self).ceilings@.len(),
            task_accesses(old(self).tasks@[old(self).top()], r as int),
        ensures
            final(self).wf(),
            final(self).tasks@ == old(self).tasks@,
            final(self).ceilings@ == old(self).ceilings@,
            final(self).max_priority == old(self).max_priority,
            final(self).running@ == old(self).running@,
            final(self).hw@ == old(self).hw@,
            final(self).levels@ == old(self).levels@,
            final(self).timer == old(self).timer,
            final(self).locks@ == old(self).locks@.push(
                (LockFrame {
                    resource: r,
                    prior: old(self).threshold,
                    owner_pos: (old(self).running@.len() - 1) as usize,
                }),
            ),
            final(self).threshold == if old(self).ceilings@[r as int] >= old(self).threshold {
                old(self).ceilings@[r as int]
            } else {
                old(self).threshold
            },
            final(self).threshold >= old(self).ceilings@[r as int],
            final(self).log@ == old(self).log@.push(
                Event::EnteredCritical(old(self).running@[old(self).running@.len() - 1], r),
            ),
    {
        let t = self.running[self.running.len() - 1];
        let c = self.ceilings[r];
        let frame = LockFrame { resource: r, prior: self.threshold, owner_pos: self.running.len() - 1 };
        self.locks.push(frame);
        if c > self.threshold {
            self.threshold = c;
        }
        self.log.push(Event::EnteredCritical(t, r));
    }

    /// The running task leaves its innermost critical section, restoring
    /// exactly the threshold saved when it was entered — the stack
    /// discipline never widens or narrows the protection of the section
    /// around it.
    pub fn unlock(&mut self)
        requires
            old(self).wf(),
            old(self).locks@.len() > 0,
            old(self).locks@.last().owner_pos == old(self).running@.len() - 1,
        ensures
            final(self).wf(),
            final(self).tasks@ == old(self).tasks@,
            final(self).ceilings@ == old(self).ceilings@,
            final(self).max_priority == old(self).max_priority,
            final(self).running@ == old(self).running@,
            final(self).hw@ == old(self).hw@,
            final(self).levels@ == old(self).levels@,
            final(self).timer == old(self).timer,
            final(self).locks@ == old(self).locks@.drop_last(),
            final(self).threshold == old(self).locks@.last().prior,
            final(self).log@ == old(self).log@.push(
                Event::ExitedCritical(
                    old(self).running@[old(self).running@.len() - 1],
                    old(self).locks@.last().resource,
                ),
            ),
    {
        let f = self.locks.pop().unwrap();
        self.threshold = f.prior;
        let t = self.running[self.running.len() - 1];
        self.log.push(Event::ExitedCritical(t, f.resource));
        proof {
            assert forall|k: int|
                0 <= k < self.locks@.len() implies self.ceilings@[(
            #[trigger] self.locks@[k]).resource as int] <= self.threshold by {
                assert(self.ceilings@[old(self).locks@[k].resource as int] <= old(self).locks@[old(
                    self,
                ).locks@.len() - 1].prior);
            }
        }
    }

    /// The running task's handler returns: it leaves the preemption stack —
    /// having released every lock it held — and its vector's running flag
    /// clears.  A reactivation recorded while it ran keeps its pending flag,
    /// so the activation is not lost.
    pub fn finish(&mut self)
        requires
            old(self).wf(),
            old(self).running@.len() > 0,
            forall|k: int| 0 <= k < old(self).locks@.len() ==> (#[trigger] old(self).locks@[k]).owner_pos
                < old(self).running@.len() - 1,
        ensures
            final(self).wf(),
            final(self).tasks@ == old(self).tasks@,
            final(self).ceilings@ == old(self).ceilings@,
            final(self).max_priority == old(self).max_priority,
            final(self).threshold == old(self).threshold,
            final(self).locks@ == old(self).locks@,
            final(self).levels@ == old(self).levels@,
            final(self).timer == old(self).timer,
            final(self).running@ == old(self).running@.drop_last(),
            final(self).hw@ == old(self).hw@.update(
                old(self).top(),
                (HwTaskState {
                    running: false,
                    pending: old(self).hw@[old(self).top()].pending,
                }),
            ),
            final(self).log@ == old(self).log@.push(
                Event::Finished(old(self).running@[old(self).running@.len() - 1]),
            ),
    {
        let t = self.running[self.running.len() - 1];
        let was = self.hw[t];
        self.hw[t] = HwTaskState { running: false, pending: was.pending };
        self.running.pop();
        self.log.push(Event::Finished(t));
    }
}

/// The log a software-dispatch level handler writes when it drains the
/// given submission order: each task starts and runs to completion before
/// the next.
pub open spec fn run_log(order: Seq<usize>) -> Seq<Event>
    decreases order.len(),
{
    if order.len() == 0 {
        Seq::empty()
    } else {
        run_log(order.drop_last()) + seq![
            Event::Started(order.last()),
            Event::Finished(order.last()),
        ]
    }
}

impl System {
    /// The shared interrupt of one software-dispatch priority level is
    /// taken — possible only above the current effective priority — and its
    /// handler drains the level's pending set in FIFO submission order,
    /// running each task body to completion before the next, until the set
    /// is empty.  Returns the order served.  FIFO order guarantees eventual
    /// service within a level; across levels, strict priority means a
    /// saturated higher level can delay a lower one indefinitely — that is
    /// expected, and the application's priority assignment answers for it.
    #[verifier::loop_isolation(false)]
    pub fn run_level(&mut self, level: u8) -> (order: Vec<usize>)
        requires
            old(self).wf(),
            (level as int) < old(self).levels@.len(),
            level as int > old(self).effective(),
        ensures
            final(self).wf(),
            final(self).tasks@ == old(self).tasks@,
            final(self).ceilings@ == old(self).ceilings@,
            final(self).max_priority == old(self).max_priority,
            final(self).threshold == old(self).threshold,
            final(self).locks@ == old(self).locks@,
            final(self).running@ == old(self).running@,
            final(self).hw@ == old(self).hw@,
            final(self).timer == old(self).timer,
            order@ == old(self).levels@[level as int].queue@,
            final(self).levels@.len() == old(self).levels@.len(),
            final(self).levels@[level as int].queue@ == Seq::<usize>::empty(),
            forall|l2: int|
                0 <= l2 < old(self).levels@.len() && l2 != level as int ==> (
                #[trigger] final(self).levels@[l2]) == old(self).levels@[l2],
            final(self).log@ == old(self).log@ + run_log(order@),
    {
        let order = self.levels[level as usize].drain();
        let ghost mid = *self;
        proof {
            assert forall|l2: int| 0 <= l2 < mid.levels@.len() implies (
            #[trigger] mid.levels@[l2]).wf() by {
                if l2 != level as int {
                    assert(mid.levels@[l2] == old(self).levels@[l2]);
                }
            }
            assert forall|l2: int, k2: int|
                0 <= l2 < mid.levels@.len() && 0 <= k2 < mid.levels@[l2].queue@.len() implies (
            #[trigger] mid.levels@[l2].queue@[k2]) < mid.tasks@.len() by {
                if l2 != level as int {
                    assert(mid.levels@[l2] == old(self).levels@[l2]);
                }
            }
            assert(mid.wf());
        }
        let mut k: usize = 0;
        while k < order.len()
            invariant
                k <= order@.len(),
                self.tasks@ == mid.tasks@,
                self.ceilings@ == mid.ceilings@,
                self.max_priority == mid.max_priority,
                self.threshold == mid.threshold,
                self.locks@ == mid.locks@,
                self.running@ == mid.running@,
                self.hw@ == mid.hw@,
                self.levels@ == mid.levels@,
                self.timer == mid.timer,
                self.wf(),
                self.log@ == old(self).log@ + run_log(order@.take(k as int)),
            decreases order@.len() - k,
        {
            let t = order[k];
            self.log.push(Event::Started(t));
            self.log.push(Event::Finished(t));
            proof {
                assert(order@.take(k + 1).drop_last() =~= order@.take(k as int));
                assert(order@.take(k + 1).last() == order@[k as int]);
                assert(run_log(order@.take(k + 1)) == run_log(order@.take(k as int)) + seq![
                    Event::Started(order@[k as int]),
                    Event::Finished(order@[k as int]),
                ]);
                assert(self.log@ =~= old(self).log@ + run_log(order@.take(k + 1)));
            }
            k = k + 1;
        }
        proof {
            assert(order@.take(order@.len() as int) =~= order@);
        }
        order
    }

    /// Insert a future activation of `target` into the timer queue;
    /// otherwise exactly [`TimerQueue::schedule`].  The deadline must lie
    /// within half the counter range ahead of the queue's clock.
    pub fn schedule(&mut self, deadline: u32, target: usize) -> (h: u64)
        requires
            old(self).wf(),
            target < old(self).tasks@.len(),
            wrap_dist_spec(deadline, old(self).timer.now) < HALF_RANGE,
            old(self).timer.next_handle < u64::MAX,
        ensures
            final(self).wf(),
            final(self).tasks@ == old(self).tasks@,
            final(self).ceilings@ == old(self).ceilings@,
            final(self).max_priority == old(self).max_priority,
            final(self).threshold == old(self).threshold,
            final(self).locks@ == old(self).locks@,
            final(self).running@ == old(self).running@,
            final(self).hw@ == old(self).hw@,
            final(self).levels@ == old(self).levels@,
            final(self).log@ == old(self).log@,
            h == old(self).timer.next_handle,
            final(self).timer.now == old(self).timer.now,
            final(self).timer.next_handle == h + 1,
            has_handle(final(self).timer.entries@, h),
            exists|pos: int|
                #[trigger] insert_boundary(
                    old(self).timer.entries@,
                    old(self).timer.now,
                    wrap_dist_spec(deadline, old(self).timer.now),
                    pos,
                ) && final(self).timer.entries@ == old(self).timer.entries@.insert(
                    pos,
                    (TimerEntry { deadline, target, handle: h }),
                ),
    {
        let h = self.timer.schedule(deadline, target);
        proof {
            let e = TimerEntry { deadline, target, handle: h };
            let pos = choose|pos: int|
                #[trigger] insert_boundary(
                    old(self).timer.entries@,
                    old(self).timer.now,
                    wrap_dist_spec(deadline, old(self).timer.now),
                    pos,
                ) && self.timer.entries@ == old(self).timer.entries@.insert(pos, e);
            old(self).timer.entries@.insert_ensures(pos, e);
            assert forall|i: int| 0 <= i < self.timer.entries@.len() implies (
            #[trigger] self.timer.entries@[i]).target < self.tasks@.len() by {
                if i < pos {
                    assert(self.timer.entries@[i] == old(self).timer.entries@[i]);
                } else if i == pos {
                    assert(self.timer.entries@[i] == e);
                } else {
                    assert(self.timer.entries@[i] == old(self).timer.entries@[i - 1]);
                }
            }
        }
        h
    }

    /// Cancel a scheduled activation by handle; otherwise exactly
    /// [`TimerQueue::cancel`].  Succeeds exactly when the entry has not
    /// fired yet.
    pub fn cancel(&mut self, h: u64) -> (r: Result<(), CancelError>)
        requires
            old(self).wf(),
        ensures
            final(self).wf(),
            final(self).tasks@ == old(self).tasks@,
            final(self).ceilings@ == old(self).ceilings@,
            final(self).max_priority == old(self).max_priority,
            final(self).threshold == old(self).threshold,
            final(self).locks@ == old(self).locks@,
            final(self).running@ == old(self).running@,
            final(self).hw@ == old(self).hw@,
            final(self).levels@ == old(self).levels@,
            final(self).log@ == old(self).log@,
            final(self).timer.now == old(self).timer.now,
            final(self).timer.next_handle == old(self).timer.next_handle,
            r is Ok <==> has_handle(old(self).timer.entries@, h),
            r is Ok ==> exists|i: int|
                0 <= i < old(self).timer.entries@.len() && (
                #[trigger] old(self).timer.entries@[i]).handle == h && final(self).timer.entries@
                    == old(self).timer.entries@.remove(i),
            r is Err ==> final(self).timer.entries@ == old(self).timer.entries@,
    {
        let r = self.timer.cancel(h);
        proof {
            if r is Ok {
                let i = choose|i: int|
                    0 <= i < old(self).timer.entries@.len() && (
                    #[trigger] old(self).timer.entries@[i]).handle == h && self.timer.entries@
                        == old(self).timer.entries@.remove(i);
                old(self).timer.entries@.remove_ensures(i);
                assert forall|j: int| 0 <= j < self.timer.entries@.len() implies (
                #[trigger] self.timer.entries@[j]).target < self.tasks@.len() by {
                    if j < i {
                        assert(self.timer.entries@[j] == old(self).timer.entries@[j]);
                    } else {
                        assert(self.timer.entries@[j] == old(self).timer.entries@[j + 1]);
                    }
                }
            }
        }
        r
    }

    /// The timer interrupt fires with the counter at `t`: every entry due
    /// at or before `t` is popped — in non-decreasing deadline order — and
    /// its target activated through the dispatcher.  Returns the activated
    /// targets in firing order; re-arming is the caller's read of
    /// [`TimerQueue::next_deadline`].
    #[verifier::loop_isolation(false)]
    pub fn tick(&mut self, t: u32) -> (fired: Vec<usize>)
        requires
            old(self).wf(),
            wrap_dist_spec(t, old(self).timer.now) < HALF_RANGE,
        ensures
            final(self).wf(),
            final(self).tasks@ == old(self).tasks@,
            final(self).ceilings@ == old(self).ceilings@,
            final(self).max_priority == old(self).max_priority,
            final(self).threshold == old(self).threshold,
            final(self).locks@ == old(self).locks@,
            final(self).running@ == old(self).running@,
            final(self).log@ == old(self).log@,
            final(self).timer.now == t,
            final(self).timer.next_handle == old(self).timer.next_handle,
            insert_boundary(
                old(self).timer.entries@,
                old(self).timer.now,
                wrap_dist_spec(t, old(self).timer.now),
                fired@.len() as int,
            ),
            fired@ == old(self).timer.entries@.take(fired@.len() as int).map_values(
                (|e: TimerEntry| e.target),
            ),
            final(self).timer.entries@ == old(self).timer.entries@.skip(fired@.len() as int),
            forall|i: int| 0 <= i < fired@.len() ==> final(self).activated(#[trigger] fired@[i]),
    {
        let popped = self.timer.service_at(t);
        let ghost mid = *self;
        let mut fired: Vec<usize> = Vec::new();
        let mut i: usize = 0;
        while i < popped.len()
            invariant
                i <= popped@.len(),
                fired@.len() == i,
                forall|j: int| 0 <= j < i ==> #[trigger] fired@[j] == popped@[j].target,
                self.wf(),
                self.tasks@ == mid.tasks@,
                self.ceilings@ == mid.ceilings@,
                self.max_priority == mid.max_priority,
                self.threshold == mid.threshold,
                self.locks@ == mid.locks@,
                self.running@ == mid.running@,
                self.log@ == mid.log@,
                self.timer == mid.timer,
                forall|j: int| 0 <= j < i ==> self.activated(#[trigger] popped@[j].target),
            decreases popped@.len() - i,
        {
            let ghost before = *self;
            let target = popped[i].target;
            proof {
                assert(popped@[i as int] == old(self).timer.entries@[i as int]);
            }
            self.pend(target);
            fired.push(target);
            proof {
                assert forall|j: int| 0 <= j < i + 1 implies self.activated(
                    #[trigger] popped@[j].target,
                ) by {
                    let x = popped@[j].target;
                    if j < i {
                        assert(before.activated(x));
                        match self.tasks@[x as int].dispatch {
                            DispatchKind::HardwareBound(_) => {
                                match before.tasks@[target as int].dispatch {
                                    DispatchKind::HardwareBound(_) => {
                                        if x as int == target as int {
                                            assert(self.hw@[x as int].pending);
                                        } else {
                                            assert(self.hw@[x as int] == before.hw@[x as int]);
                                        }
                                    },
                                    DispatchKind::SoftwareDispatched(_) => {
                                        assert(self.hw@ == before.hw@);
                                    },
                                }
                            },
                            DispatchKind::SoftwareDispatched(l) => {
                                match before.tasks@[target as int].dispatch {
                                    DispatchKind::HardwareBound(_) => {
                                        assert(self.levels@ == before.levels@);
                                    },
                                    DispatchKind::SoftwareDispatched(l2) => {
                                        if l == l2 {
                                            let s = before.levels@[l as int].queue@;
                                            assert(s.contains(x));
                                            let w = choose|w: int| 0 <= w < s.len() && s[w] == x;
                                            if s.contains(target) {
                                                assert(self.levels@[l as int].queue@ == s);
                                            } else {
                                                assert(self.levels@[l as int].queue@ == s.push(
                                                    target,
                                                ));
                                                assert(s.push(target)[w] == x);
                                            }
                                        } else {
                                            assert(self.levels@[l as int] == before.levels@[l as int]);
                                        }
                                    },
                                }
                            },
                        }
                    } else {
                        assert(self.activated(target));
                    }
                }
            }
            i = i + 1;
        }
        proof {
            assert(fired@ =~= old(self).timer.entries@.take(fired@.len() as int).map_values(
                (|e: TimerEntry| e.target),
            ));
        }
        fired
    }
}

/// The exclusion guarantee of the Immediate Priority Ceiling Protocol over
/// the whole system state: while any lock on a resource is held, a task
/// that also accesses that resource is masked below the threshold — its
/// activation cannot be taken — and it is nowhere on the stack above the
/// holder, so it can never observe the resource mid-update.  Combined with
/// the dispatch rule this bounds priority inversion to one critical
/// section and excludes deadlock: the protocol never waits.
pub proof fn lemma_lock_exclusion(sys: System, k: int, t2: int)
    requires
        sys.wf(),
        0 <= k < sys.locks@.len(),
        0 <= t2 < sys.tasks@.len(),
        task_accesses(sys.tasks@[t2], sys.locks@[k].resource as int),
    ensures
        sys.prio(t2) <= sys.threshold,
        !sys.can_start(t2),
        forall|p: int|
            sys.locks@[k].owner_pos < p < sys.running@.len() ==> (#[trigger] sys.running@[p])
                != t2,
{
    let r = sys.locks@[k].resource as int;
    let c = sys.ceilings@[r] as int;
    lemma_ceiling_excludes_sharers(sys.tasks@, r, c, sys.threshold as int, t2);
    assert forall|p: int|
        sys.locks@[k].owner_pos < p < sys.running@.len() implies (#[trigger] sys.running@[p])
            != t2 by {
        assert(sys.prio(sys.running@[p] as int) > c);
    }
}

} // verus!
