//! Priority ceiling analysis.
//!
//! The analysis runs once, at build time, over the full static graph of
//! tasks and the resources each of them accesses.  It computes each
//! resource's lock ceiling — the maximum priority of any task that ever
//! touches it — and rejects, with an attributable diagnostic, every
//! configuration that must not produce firmware: a task priority above the
//! hardware bound, two tasks bound to one interrupt vector, and an access to
//! a resource the analysis cannot resolve.

use vstd::prelude::*;

verus! {

/// How a task is invoked: directly by a hardware interrupt vector, or pended
/// in software and serviced by the shared handler of a priority level.
#[derive(Clone, Copy, PartialEq, Eq, Structural, Debug)]
pub enum DispatchKind {
    HardwareBound(u16),
    SoftwareDispatched(u8),
}

/// One task of the static set: its priority (higher is more urgent), how it
/// is dispatched, and the ordered list of resources its body accesses.  The
/// body itself is opaque user code and does not enter the analysis.
pub struct Task {
    pub priority: u8,
    pub dispatch: DispatchKind,
    pub accesses: Vec<usize>,
}

/// The build-time failure surface.  Each variant names the offending task or
/// resource; none of these conditions is ever deferred to run time.
#[derive(Clone, Copy, PartialEq, Eq, Structural, Debug)]
pub enum BuildError {
    /// A task accesses a resource outside the declared set.
    UnresolvableAccess { task: usize, resource: usize },
    /// Two tasks are bound to the same hardware interrupt vector.
    DuplicateVectorBinding { first: usize, second: usize, vector: u16 },
    /// A task's priority (hence some ceiling) exceeds the highest priority
    /// the hardware can represent.
    PriorityExceedsBound { task: usize, priority: u8 },
}

/// Whether task `t` ever accesses resource `r`.
pub open spec fn task_accesses(t: Task, r: int) -> bool {
    exists|k: int| 0 <= k < t.accesses@.len() && t.accesses@[k] == r
}

/// `c` is the lock ceiling of resource `r`: no accessor's priority exceeds
/// it, and unless no task accesses `r` at a positive priority, some accessor
/// reaches it.
pub open spec fn is_ceiling(tasks: Seq<Task>, r: int, c: int) -> bool {
    &&& forall|ti: int|
        0 <= ti < tasks.len() && task_accesses(#[trigger] tasks[ti], r) ==> tasks[ti].priority <= c
    &&& (c == 0 || exists|ti: int|
        0 <= ti < tasks.len() && task_accesses(#[trigger] tasks[ti], r) && tasks[ti].priority == c)
}

/// Every resource access of every task names a declared resource.
pub open spec fn all_accesses_resolvable(tasks: Seq<Task>, n_resources: int) -> bool {
    forall|ti: int, k: int|
        0 <= ti < tasks.len() && 0 <= k < tasks[ti].accesses@.len() ==> (
        #[trigger] tasks[ti].accesses@[k]) < n_resources
}

/// Whether two tasks are bound to the same hardware interrupt vector.
pub open spec fn same_vector(a: Task, b: Task) -> bool {
    match (a.dispatch, b.dispatch) {
        (DispatchKind::HardwareBound(va), DispatchKind::HardwareBound(vb)) => va == vb,
        _ => false,
    }
}

/// No interrupt vector carries more than one task.
pub open spec fn no_duplicate_binding(tasks: Seq<Task>) -> bool {
    forall|i: int, j: int|
        0 <= i < j < tasks.len() ==> !same_vector(#[trigger] tasks[i], #[trigger] tasks[j])
}

/// Every task priority is representable by the hardware, and so is the
/// priority level of every software-pended interrupt.
pub open spec fn priorities_in_bound(tasks: Seq<Task>, max_priority: int) -> bool {
    forall|ti: int|
        0 <= ti < tasks.len() ==> (#[trigger] tasks[ti]).priority <= max_priority && match tasks[ti].dispatch {
            DispatchKind::SoftwareDispatched(l) => l <= max_priority,
            DispatchKind::HardwareBound(_) => true,
        }
}

/// The analysis output: one lock ceiling per declared resource, indexed by
/// resource identity.
pub struct Analysis {
    pub ceilings: Vec<u8>,
}

/// Whether the body of `t` ever accesses resource `r`.
pub fn accesses_resource(t: &Task, r: usize) -> (b: bool)
    ensures
        b == task_accesses(*t, r as int),
{
    let mut k: usize = 0;
    loop
        invariant_except_break
            k <= t.accesses@.len(),
            forall|j: int| 0 <= j < k ==> (#[trigger] t.accesses@[j]) != r,
        ensures
            k <= t.accesses@.len(),
            forall|j: int| 0 <= j < k ==> (#[trigger] t.accesses@[j]) != r,
            k < t.accesses@.len() ==> t.accesses@[k as int] == r,
            k == t.accesses@.len() ==> !task_accesses(*t, r as int),
        decreases t.accesses@.len() - k,
    {
        if k == t.accesses.len() {
            break ;
        }
        if t.accesses[k] == r {
            break ;
        }
        k = k + 1;
    }
    k < t.accesses.len()
}

impl Analysis {
    /// The ordered lock set of one task: for each access, in source order,
    /// the ceiling the lock around it must raise the threshold to.
    pub fn lock_set(&self, t: &Task) -> (s: Vec<u8>)
        requires
            forall|k: int| 0 <= k < t.accesses@.len() ==> (#[trigger] t.accesses@[k])
                < self.ceilings@.len(),
        ensures
            s@.len() == t.accesses@.len(),
            forall|k: int| 0 <= k < s@.len() ==> #[trigger] s@[k] == self.ceilings@[t.accesses@[k] as int],
    {
        let mut s: Vec<u8> = Vec::new();
        let mut k: usize = 0;
        while k < t.accesses.len()
            invariant
                k <= t.accesses@.len(),
                s@.len() == k,
                forall|k2: int| 0 <= k2 < t.accesses@.len() ==> (#[trigger] t.accesses@[k2])
                    < self.ceilings@.len(),
                forall|k2: int| 0 <= k2 < k ==> #[trigger] s@[k2] == self.ceilings@[t.accesses@[k2] as int],
            decreases t.accesses@.len() - k,
        {
            s.push(self.ceilings[t.accesses[k]]);
            k = k + 1;
        }
        s
    }
}

/// Run the analysis over the static task set: `n_resources` declared
/// resources and `max_priority` as the highest hardware-representable
/// priority.  On success every ceiling is exact and within the hardware
/// bound; otherwise the first defect found, in the documented order —
/// unresolvable accesses, then duplicate vector bindings, then priorities
/// out of bound — is returned as an attributable diagnostic.
pub fn analyze(tasks: &Vec<Task>, n_resources: usize, max_priority: u8) -> (r: Result<
    Analysis,
    BuildError,
>)
    ensures
        r is Ok <==> all_accesses_resolvable(tasks@, n_resources as int) && no_duplicate_binding(
            tasks@,
        ) && priorities_in_bound(tasks@, max_priority as int),
        match r {
            Ok(a) => {
                &&& a.ceilings@.len() == n_resources
                &&& forall|ri: int|
                    0 <= ri < n_resources ==> is_ceiling(
                        tasks@,
                        ri,
                        (#[trigger] a.ceilings@[ri]) as int,
                    )
                &&& forall|ri: int|
                    0 <= ri < n_resources ==> (#[trigger] a.ceilings@[ri]) <= max_priority
            },
            Err(e) => match e {
                BuildError::UnresolvableAccess { task, resource } => {
                    &&& task < tasks@.len()
                    &&& task_accesses(tasks@[task as int], resource as int)
                    &&& resource >= n_resources
                },
                BuildError::DuplicateVectorBinding { first, second, vector } => {
                    &&& all_accesses_resolvable(tasks@, n_resources as int)
                    &&& first < second < tasks@.len()
                    &&& tasks@[first as int].dispatch == DispatchKind::HardwareBound(vector)
                    &&& tasks@[second as int].dispatch == DispatchKind::HardwareBound(vector)
                },
                BuildError::PriorityExceedsBound { task, priority } => {
                    &&& all_accesses_resolvable(tasks@, n_resources as int)
                    &&& no_duplicate_binding(tasks@)
                    &&& task < tasks@.len()
                    &&& (tasks@[task as int].priority == priority || tasks@[task as int].dispatch
                        == DispatchKind::SoftwareDispatched(priority))
                    &&& priority > max_priority
                },
            },
        },
{
    // Pass 1: every access must name a declared resource.
    let mut ti: usize = 0;
    while ti < tasks.len()
        invariant
            ti <= tasks@.len(),
            forall|t2: int, k: int|
                0 <= t2 < ti && 0 <= k < tasks@[t2].accesses@.len() ==> (
                #[trigger] tasks@[t2].accesses@[k]) < n_resources,
        decreases tasks@.len() - ti,
    {
        let t = &tasks[ti];
        let mut k: usize = 0;
        while k < t.accesses.len()
            invariant
                t == &tasks@[ti as int],
                ti < tasks@.len(),
                k <= t.accesses@.len(),
                forall|j: int| 0 <= j < k ==> (#[trigger] t.accesses@[j]) < n_resources,
            decreases t.accesses@.len() - k,
        {
            if t.accesses[k] >= n_resources {
                return Err(BuildError::UnresolvableAccess { task: ti, resource: t.accesses[k] });
            }
            k = k + 1;
        }
        ti = ti + 1;
    }
    // Pass 2: no two tasks bound to one interrupt vector.
    let mut i: usize = 0;
    while i < tasks.len()
        invariant
            i <= tasks@.len(),
            all_accesses_resolvable(tasks@, n_resources as int),
            forall|a: int, b: int|
                0 <= a < b < tasks@.len() && a < i ==> !same_vector(
                    #[trigger] tasks@[a],
                    #[trigger] tasks@[b],
                ),
        decreases tasks@.len() - i,
    {
        if let DispatchKind::HardwareBound(v) = tasks[i].dispatch {
            let mut j: usize = i + 1;
            while j < tasks.len()
                invariant
                    i < j <= tasks@.len(),
                    all_accesses_resolvable(tasks@, n_resources as int),
                    tasks@[i as int].dispatch == DispatchKind::HardwareBound(v),
                    forall|b: int|
                        i < b < j ==> !same_vector(tasks@[i as int], #[trigger] tasks@[b]),
                decreases tasks@.len() - j,
            {
                if let DispatchKind::HardwareBound(w) = tasks[j].dispatch {
                    if w == v {
                        proof {
                            assert(same_vector(tasks@[i as int], tasks@[j as int]));
                            assert(!no_duplicate_binding(tasks@));
                        }
                        return Err(
                            BuildError::DuplicateVectorBinding { first: i, second: j, vector: v },
                        );
                    }
                }
                j = j + 1;
            }
        }
        i = i + 1;
    }
    // Pass 3: every priority — of a task, and of a software-pended
    // interrupt level — representable by the hardware.
    let mut ti: usize = 0;
    while ti < tasks.len()
        invariant
            ti <= tasks@.len(),
            all_accesses_resolvable(tasks@, n_resources as int),
            no_duplicate_binding(tasks@),
            forall|t2: int|
                0 <= t2 < ti ==> (#[trigger] tasks@[t2]).priority <= max_priority && match tasks@[t2].dispatch {
                    DispatchKind::SoftwareDispatched(l) => l <= max_priority,
                    DispatchKind::HardwareBound(_) => true,
                },
        decreases tasks@.len() - ti,
    {
        if tasks[ti].priority > max_priority {
            return Err(
                BuildError::PriorityExceedsBound { task: ti, priority: tasks[ti].priority },
            );
        }
        if let DispatchKind::SoftwareDispatched(l) = tasks[ti].dispatch {
            if l > max_priority {
                return Err(BuildError::PriorityExceedsBound { task: ti, priority: l });
            }
        }
        ti = ti + 1;
    }
    // Pass 4: one ceiling per resource, the maximum priority over its
    // accessors.
    let mut ceilings: Vec<u8> = Vec::new();
    let mut ri: usize = 0;
    while ri < n_resources
        invariant
            ri <= n_resources,
            ceilings@.len() == ri,
            all_accesses_resolvable(tasks@, n_resources as int),
            no_duplicate_binding(tasks@),
            priorities_in_bound(tasks@, max_priority as int),
            forall|r2: int| 0 <= r2 < ri ==> is_ceiling(tasks@, r2, (#[trigger] ceilings@[r2]) as int),
            forall|r2: int| 0 <= r2 < ri ==> (#[trigger] ceilings@[r2]) <= max_priority,
        decreases n_resources - ri,
    {
        let mut c: u8 = 0;
        let mut ti: usize = 0;
        while ti < tasks.len()
            invariant
                ti <= tasks@.len(),
                priorities_in_bound(tasks@, max_priority as int),
                c == 0 || exists|t2: int|
                    0 <= t2 < ti && task_accesses(#[trigger] tasks@[t2], ri as int)
                        && tasks@[t2].priority == c,
                forall|t2: int|
                    0 <= t2 < ti && task_accesses(#[trigger] tasks@[t2], ri as int)
                        ==> tasks@[t2].priority <= c,
            decreases tasks@.len() - ti,
        {
            if accesses_resource(&tasks[ti], ri) {
                if tasks[ti].priority > c {
                    c = tasks[ti].priority;
                }
            }
            ti = ti + 1;
        }
        proof {
            if c > max_priority {
                let t2 = choose|t2: int|
                    0 <= t2 < tasks@.len() && task_accesses(#[trigger] tasks@[t2], ri as int)
                        && tasks@[t2].priority == c;
                assert(tasks@[t2].priority <= max_priority);
            }
        }
        ceilings.push(c);
        ri = ri + 1;
    }
    Ok(Analysis { ceilings })
}

} // verus!
