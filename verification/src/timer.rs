//! Monotonic timer queue.
//!
//! An ordered queue of `(deadline, target)` entries serviced from the timer
//! interrupt.  Timestamps are a fixed-width monotonic counter that is allowed
//! to wrap around; all deadline comparisons use wraparound-safe distances and
//! are valid as long as true elapsed differences stay under half the
//! representable range, which is a documented precondition on the callers.

use vstd::prelude::*;

verus! {

/// Marker implemented on an interrupt token to enforce that the token for
/// the right timer interrupt is the one handed to the matching service
/// routine; implementing it for a token type asserts that the token stands
/// for the interrupt of the named peripheral.
pub trait InterruptToken<Peripheral> {

}

/// Half of the representable timestamp range.  A deadline may lie at most
/// `HALF_RANGE - 1` ticks ahead of the current time; scheduling further ahead
/// would be indistinguishable from scheduling in the past.
pub const HALF_RANGE: u32 = 0x8000_0000;

/// Wraparound distance from `b` forward to `a`: the number of ticks a counter
/// standing at `b` needs to reach `a`, as a mathematical integer in
/// `[0, 2^32)`.
pub open spec fn wrap_dist_spec(a: u32, b: u32) -> int {
    if a >= b {
        a - b
    } else {
        a - b + 0x1_0000_0000
    }
}

/// Timestamp `d` ticks after `a`, wrapping around the end of the counter
/// range.
pub open spec fn wrap_add_spec(a: u32, d: u32) -> u32 {
    if a + d <= u32::MAX {
        (a + d) as u32
    } else {
        (a + d - 0x1_0000_0000) as u32
    }
}

/// Wraparound distance from `b` forward to `a`.
pub fn wrap_dist(a: u32, b: u32) -> (r: u32)
    ensures
        r == wrap_dist_spec(a, b),
{
    if a >= b {
        a - b
    } else {
        a + (u32::MAX - b) + 1
    }
}

/// Timestamp `d` ticks after `a`, wrapping around the end of the counter
/// range.
pub fn wrap_add(a: u32, d: u32) -> (r: u32)
    ensures
        r == wrap_add_spec(a, d),
{
    if d <= u32::MAX - a {
        a + d
    } else {
        d - (u32::MAX - a) - 1
    }
}

/// Advancing a counter by `d` and asking how far it moved gives back `d`:
/// the wraparound distance undoes the wraparound addition exactly.
pub proof fn lemma_wrap_round_trip(a: u32, d: u32)
    ensures
        wrap_dist_spec(wrap_add_spec(a, d), a) == d,
{
}

/// A deadline computed as `now + delta` (wrapping) with `delta` under half
/// the timestamp range fires at the correct relative time even when the
/// counter wraps around in between: the deadline's distance from `now` is
/// exactly `delta`, so it is due at an instant `now + elapsed` precisely when
/// `elapsed` has reached `delta`.
pub proof fn lemma_wraparound_firing(now: u32, delta: u32, elapsed: u32)
    requires
        delta < HALF_RANGE,
    ensures
        wrap_dist_spec(wrap_add_spec(now, delta), now) == delta,
        wrap_dist_spec(wrap_add_spec(now, delta), now) <= wrap_dist_spec(
            wrap_add_spec(now, elapsed),
            now,
        ) <==> delta <= elapsed,
{
    lemma_wrap_round_trip(now, delta);
    lemma_wrap_round_trip(now, elapsed);
}

/// One queued activation: fire `target` once the counter reaches `deadline`.
/// The handle is unique over the queue's lifetime and orders entries with
/// equal deadlines by insertion.
#[derive(Clone, Copy, PartialEq, Eq, Structural, Debug)]
pub struct TimerEntry {
    pub deadline: u32,
    pub target: usize,
    pub handle: u64,
}

/// Cancelling an entry that already fired (or never existed) is reported,
/// not a fault: the activation is irrevocable once the service routine
/// popped it.
#[derive(Clone, Copy, PartialEq, Eq, Structural, Debug)]
pub enum CancelError {
    AlreadyFired,
}

/// Sort key of an entry: its wraparound distance ahead of the current time.
pub open spec fn entry_key(now: u32, e: TimerEntry) -> int {
    wrap_dist_spec(e.deadline, now)
}

/// Whether some entry of `s` carries handle `h`.
pub open spec fn has_handle(s: Seq<TimerEntry>, h: u64) -> bool {
    exists|i: int| 0 <= i < s.len() && (#[trigger] s[i]).handle == h
}

/// `pos` is the unique place where an entry with key `k` inserts into the
/// deadline-sorted `s`: after every entry due no later than it (so equal
/// deadlines keep insertion order) and before every entry due strictly later.
pub open spec fn insert_boundary(s: Seq<TimerEntry>, now: u32, k: int, pos: int) -> bool {
    &&& 0 <= pos <= s.len()
    &&& forall|j: int| 0 <= j < pos ==> entry_key(now, #[trigger] s[j]) <= k
    &&& forall|j: int| pos <= j < s.len() ==> entry_key(now, #[trigger] s[j]) > k
}

/// The monotonic timer queue: entries ordered by deadline ascending (ties by
/// insertion order), a monotonic `now` that only moves forward, and the
/// counter the next handle is drawn from.
pub struct TimerQueue {
    pub entries: Vec<TimerEntry>,
    pub now: u32,
    pub next_handle: u64,
}

impl TimerQueue {
    /// Queue well-formedness: every entry lies within half a counter range
    /// ahead of `now` (so comparisons are meaningful), entries are sorted by
    /// distance-from-`now` with equal deadlines in insertion (handle) order,
    /// and handles are unique and below the next one to be issued.
    pub open spec fn wf(self) -> bool {
        &&& forall|i: int|
            0 <= i < self.entries@.len() ==> entry_key(self.now, #[trigger] self.entries@[i])
                < HALF_RANGE
        &&& forall|i: int, j: int|
            0 <= i < j < self.entries@.len() ==> entry_key(
                self.now,
                #[trigger] self.entries@[i],
            ) < entry_key(self.now, #[trigger] self.entries@[j]) || (entry_key(
                self.now,
                self.entries@[i],
            ) == entry_key(self.now, self.entries@[j]) && self.entries@[i].handle
                < self.entries@[j].handle)
        &&& forall|i: int|
            0 <= i < self.entries@.len() ==> (#[trigger] self.entries@[i]).handle
                < self.next_handle
        &&& forall|i: int, j: int|
            0 <= i < j < self.entries@.len() ==> (#[trigger] self.entries@[i]).handle != (
            #[trigger] self.entries@[j]).handle
    }

    /// An empty queue whose clock starts at `now`.
    pub fn new(now: u32) -> (q: TimerQueue)
        ensures
            q.wf(),
            q.entries@ =~= Seq::<TimerEntry>::empty(),
            q.now == now,
            q.next_handle == 0,
    {
        TimerQueue { entries: Vec::new(), now, next_handle: 0 }
    }

    /// Deadline of the next entry due, for re-arming the hardware timer;
    /// `None` means the queue is empty and the timer can be disarmed.
    pub fn next_deadline(&self) -> (r: Option<u32>)
        ensures
            match r {
                Some(d) => self.entries@.len() > 0 && d == self.entries@[0].deadline,
                None => self.entries@.len() == 0,
            },
    {
        if self.entries.len() > 0 {
            Some(self.entries[0].deadline)
        } else {
            None
        }
    }

    /// Insert an entry firing `target` at `deadline`, keeping the queue
    /// sorted; returns the cancellable handle.  The deadline must lie within
    /// half the counter range of the current time — scheduling further ahead
    /// is the documented caller error that wraparound comparison cannot
    /// survive.
    pub fn schedule(&mut self, deadline: u32, target: usize) -> (h: u64)
        requires
            old(self).wf(),
            wrap_dist_spec(deadline, old(self).now) < HALF_RANGE,
            old(self).next_handle < u64::MAX,
        ensures
            final(self).wf(),
            h == old(self).next_handle,
            final(self).now == old(self).now,
            final(self).next_handle == h + 1,
            has_handle(final(self).entries@, h),
            exists|pos: int|
                #[trigger] insert_boundary(
                    old(self).entries@,
                    old(self).now,
                    wrap_dist_spec(deadline, old(self).now),
                    pos,
                ) && final(self).entries@ == old(self).entries@.insert(
                    pos,
                    (TimerEntry { deadline, target, handle: old(self).next_handle }),
                ),
    {
        let entry = TimerEntry { deadline, target, handle: self.next_handle };
        let key = wrap_dist(deadline, self.now);
        let mut i: usize = 0;
        loop
            invariant_except_break
                self.wf(),
                *self == *old(self),
                key == wrap_dist_spec(deadline, self.now),
                i <= self.entries@.len(),
                forall|j: int| 0 <= j < i ==> entry_key(self.now, #[trigger] self.entries@[j]) <= key,
            ensures
                *self == *old(self),
                key == wrap_dist_spec(deadline, self.now),
                insert_boundary(self.entries@, self.now, key as int, i as int),
            decreases self.entries@.len() - i,
        {
            if i == self.entries.len() {
                break ;
            }
            if wrap_dist(self.entries[i].deadline, self.now) > key {
                proof {
                    assert forall|j: int|
                        i <= j < self.entries@.len() implies entry_key(
                        self.now,
                        #[trigger] self.entries@[j],
                    ) > key by {
                        if j > i {
                            assert(entry_key(self.now, self.entries@[i as int]) < entry_key(
                                self.now,
                                self.entries@[j],
                            ) || entry_key(self.now, self.entries@[i as int]) == entry_key(
                                self.now,
                                self.entries@[j],
                            ));
                        }
                    }
                }
                break ;
            }
            i = i + 1;
        }
        self.entries.insert(i, entry);
        self.next_handle = self.next_handle + 1;
        proof {
            let s = old(self).entries@;
            let pos = i as int;
            assert(self.entries@ == s.insert(pos, entry));
            s.insert_ensures(pos, entry);
            assert(insert_boundary(s, old(self).now, key as int, pos));
            assert(self.entries@[pos] == entry);
            assert(has_handle(self.entries@, entry.handle));
            assert forall|a: int, b: int|
                0 <= a < b < self.entries@.len() implies entry_key(
                self.now,
                #[trigger] self.entries@[a],
            ) < entry_key(self.now, #[trigger] self.entries@[b]) || (entry_key(
                self.now,
                self.entries@[a],
            ) == entry_key(self.now, self.entries@[b]) && self.entries@[a].handle
                < self.entries@[b].handle) by {
                if a < pos && b < pos {
                    assert(self.entries@[a] == s[a] && self.entries@[b] == s[b]);
                } else if a < pos && b == pos {
                    assert(self.entries@[a] == s[a]);
                } else if a < pos && b > pos {
                    assert(self.entries@[a] == s[a] && self.entries@[b] == s[b - 1]);
                } else if a == pos {
                    assert(self.entries@[b] == s[b - 1]);
                } else {
                    assert(self.entries@[a] == s[a - 1] && self.entries@[b] == s[b - 1]);
                }
            }
            assert(self.wf());
        }
        let h = self.next_handle - 1;
        h
    }

    /// Remove the entry carrying handle `h` if it is still queued.  Succeeds
    /// exactly when the entry has not fired (and was not cancelled) yet; a
    /// cancellation that comes too late is reported, never silently dropped.
    pub fn cancel(&mut self, h: u64) -> (r: Result<(), CancelError>)
        requires
            old(self).wf(),
        ensures
            final(self).wf(),
            final(self).now == old(self).now,
            final(self).next_handle == old(self).next_handle,
            r is Ok <==> has_handle(old(self).entries@, h),
            r is Ok ==> exists|i: int|
                0 <= i < old(self).entries@.len() && (#[trigger] old(self).entries@[i]).handle
                    == h && final(self).entries@ == old(self).entries@.remove(i),
            r is Err ==> final(self).entries@ == old(self).entries@,
    {
        let mut i: usize = 0;
        loop
            invariant_except_break
                self.wf(),
                *self == *old(self),
                i <= self.entries@.len(),
                forall|j: int| 0 <= j < i ==> (#[trigger] self.entries@[j]).handle != h,
            ensures
                *self == *old(self),
                i <= self.entries@.len(),
                forall|j: int| 0 <= j < i ==> (#[trigger] self.entries@[j]).handle != h,
                i < self.entries@.len() ==> self.entries@[i as int].handle == h,
                i == self.entries@.len() ==> !has_handle(self.entries@, h),
            decreases self.entries@.len() - i,
        {
            if i == self.entries.len() {
                break ;
            }
            if self.entries[i].handle == h {
                break ;
            }
            i = i + 1;
        }
        if i == self.entries.len() {
            return Err(CancelError::AlreadyFired);
        }
        let ghost s = self.entries@;
        let ghost pos = i as int;
        self.entries.remove(i);
        proof {
            s.remove_ensures(pos);
            assert forall|a: int, b: int|
                0 <= a < b < self.entries@.len() implies entry_key(
                self.now,
                #[trigger] self.entries@[a],
            ) < entry_key(self.now, #[trigger] self.entries@[b]) || (entry_key(
                self.now,
                self.entries@[a],
            ) == entry_key(self.now, self.entries@[b]) && self.entries@[a].handle
                < self.entries@[b].handle) by {
                if b < pos {
                    assert(self.entries@[a] == s[a] && self.entries@[b] == s[b]);
                } else if a < pos {
                    assert(self.entries@[a] == s[a] && self.entries@[b] == s[b + 1]);
                } else {
                    assert(self.entries@[a] == s[a + 1] && self.entries@[b] == s[b + 1]);
                }
            }
            assert forall|a: int, b: int|
                0 <= a < b < self.entries@.len() implies (#[trigger] self.entries@[a]).handle != (
            #[trigger] self.entries@[b]).handle by {
                if b < pos {
                    assert(self.entries@[a] == s[a] && self.entries@[b] == s[b]);
                } else if a < pos {
                    assert(self.entries@[a] == s[a] && self.entries@[b] == s[b + 1]);
                } else {
                    assert(self.entries@[a] == s[a + 1] && self.entries@[b] == s[b + 1]);
                }
            }
            assert forall|a: int| 0 <= a < self.entries@.len() implies entry_key(
                self.now,
                #[trigger] self.entries@[a],
            ) < HALF_RANGE && self.entries@[a].handle < self.next_handle by {
                if a < pos {
                    assert(self.entries@[a] == s[a]);
                } else {
                    assert(self.entries@[a] == s[a + 1]);
                }
            }
        }
        Ok(())
    }

    /// The service routine of the timer interrupt, called with the current
    /// counter value `t`.  Pops every entry due at or before `t` — in
    /// non-decreasing deadline order, ties by insertion order — and advances
    /// the queue's clock.  The caller must service often enough that the
    /// clock never appears to jump by half the counter range or more.
    pub fn service_at(&mut self, t: u32) -> (fired: Vec<TimerEntry>)
        requires
            old(self).wf(),
            wrap_dist_spec(t, old(self).now) < HALF_RANGE,
        ensures
            final(self).wf(),
            final(self).now == t,
            final(self).next_handle == old(self).next_handle,
            insert_boundary(
                old(self).entries@,
                old(self).now,
                wrap_dist_spec(t, old(self).now),
                fired@.len() as int,
            ),
            fired@ == old(self).entries@.take(fired@.len() as int),
            final(self).entries@ == old(self).entries@.skip(fired@.len() as int),
            forall|i: int, j: int|
                0 <= i < j < fired@.len() ==> entry_key(old(self).now, #[trigger] fired@[i])
                    <= entry_key(old(self).now, #[trigger] fired@[j]),
            forall|i: int|
                0 <= i < fired@.len() ==> !has_handle(
                    final(self).entries@,
                    (#[trigger] fired@[i]).handle,
                ),
    {
        let d = wrap_dist(t, self.now);
        let mut fired: Vec<TimerEntry> = Vec::new();
        loop
            invariant_except_break
                self.wf(),
                self.now == old(self).now,
                self.next_handle == old(self).next_handle,
                d == wrap_dist_spec(t, self.now),
                d < HALF_RANGE,
                old(self).entries@ == fired@ + self.entries@,
                forall|j: int|
                    0 <= j < fired@.len() ==> entry_key(self.now, #[trigger] fired@[j]) <= d,
            ensures
                self.wf(),
                self.now == old(self).now,
                self.next_handle == old(self).next_handle,
                d == wrap_dist_spec(t, self.now),
                old(self).entries@ == fired@ + self.entries@,
                forall|j: int|
                    0 <= j < fired@.len() ==> entry_key(self.now, #[trigger] fired@[j]) <= d,
                self.entries@.len() > 0 ==> entry_key(self.now, self.entries@[0]) > d,
            decreases self.entries@.len(),
        {
            if self.entries.len() == 0 {
                break ;
            }
            if wrap_dist(self.entries[0].deadline, self.now) > d {
                break ;
            }
            let ghost s = self.entries@;
            let e = self.entries.remove(0);
            fired.push(e);
            proof {
                assert(fired@.drop_last() + s =~= fired@.drop_last() + seq![e] + self.entries@);
                assert(fired@.drop_last() + seq![e] =~= fired@);
                assert(fired@ + self.entries@ =~= fired@.drop_last() + seq![e] + self.entries@);
            }
        }
        let ghost k = fired@.len() as int;
        let ghost s0 = old(self).entries@;
        proof {
            assert forall|j: int| k <= j < s0.len() implies entry_key(
                old(self).now,
                #[trigger] s0[j],
            ) > d by {
                assert(s0[j] == self.entries@[j - k]);
                if j - k > 0 {
                    assert(entry_key(self.now, self.entries@[0]) < entry_key(
                        self.now,
                        self.entries@[j - k],
                    ) || entry_key(self.now, self.entries@[0]) == entry_key(
                        self.now,
                        self.entries@[j - k],
                    ));
                }
            }
            assert forall|j: int| 0 <= j < k implies entry_key(old(self).now, #[trigger] s0[j])
                <= d by {
                assert(s0[j] == fired@[j]);
            }
            assert(fired@ =~= s0.take(k));
            assert(self.entries@ =~= s0.skip(k));
            assert forall|i: int, j: int| 0 <= i < j < k implies entry_key(
                old(self).now,
                #[trigger] fired@[i],
            ) <= entry_key(old(self).now, #[trigger] fired@[j]) by {
                assert(fired@[i] == s0[i] && fired@[j] == s0[j]);
            }
        }
        let ghost pre = *self;
        self.now = t;
        proof {
            assert forall|i: int| 0 <= i < self.entries@.len() implies entry_key(
                t,
                #[trigger] self.entries@[i],
            ) == entry_key(pre.now, self.entries@[i]) - d && entry_key(t, self.entries@[i])
                < HALF_RANGE by {
                assert(self.entries@[i] == pre.entries@[i]);
                if i > 0 {
                    assert(entry_key(pre.now, pre.entries@[0]) < entry_key(
                        pre.now,
                        pre.entries@[i],
                    ) || entry_key(pre.now, pre.entries@[0]) == entry_key(
                        pre.now,
                        pre.entries@[i],
                    ));
                }
                assert(entry_key(pre.now, self.entries@[i]) > d);
            }
            assert forall|i: int, j: int| 0 <= i < j < self.entries@.len() implies entry_key(
                self.now,
                #[trigger] self.entries@[i],
            ) < entry_key(self.now, #[trigger] self.entries@[j]) || (entry_key(
                self.now,
                self.entries@[i],
            ) == entry_key(self.now, self.entries@[j]) && self.entries@[i].handle
                < self.entries@[j].handle) by {
                assert(self.entries@[i] == pre.entries@[i] && self.entries@[j] == pre.entries@[j]);
                assert(entry_key(pre.now, pre.entries@[i]) < entry_key(pre.now, pre.entries@[j])
                    || (entry_key(pre.now, pre.entries@[i]) == entry_key(pre.now, pre.entries@[j])
                    && pre.entries@[i].handle < pre.entries@[j].handle));
            }
            assert(self.wf());
            assert forall|i: int| 0 <= i < fired@.len() implies !has_handle(
                self.entries@,
                (#[trigger] fired@[i]).handle,
            ) by {
                assert(fired@[i] == s0[i]);
                assert forall|j: int| 0 <= j < self.entries@.len() implies (
                #[trigger] self.entries@[j]).handle != s0[i].handle by {
                    assert(self.entries@[j] == s0[j + k]);
                }
            }
        }
        fired
    }
}

/// Scheduling and then cancelling, with no service call in between, always
/// succeeds: the entry just inserted still carries its handle, and `cancel`
/// succeeds exactly on the handles present.
pub proof fn lemma_schedule_then_cancel(s: Seq<TimerEntry>, e: TimerEntry, pos: int)
    requires
        0 <= pos <= s.len(),
    ensures
        has_handle(s.insert(pos, e), e.handle),
{
    s.insert_ensures(pos, e);
    assert(s.insert(pos, e)[pos] == e);
}

} // verus!
