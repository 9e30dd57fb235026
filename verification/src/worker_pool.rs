//! The admission state of the JavaScript worker supervisor: how many
//! invocations may be in flight at once, and which worker sessions of a
//! bounded pool are busy. Waiting, process start and thread wake-ups are
//! the caller's; these types decide, step by step, what happens next.
use vstd::prelude::*;

verus! {

/// The mathematical state of an in-flight limiter.
pub struct LimiterState {
    pub maximum: nat,
    pub count: nat,
    pub peak: nat,
}

/// Bounds the invocations in flight on one worker session and remembers
/// the most that were ever in flight together.
#[derive(Debug)]
pub struct InFlightLimiter {
    maximum: usize,
    count: usize,
    peak: usize,
}

impl View for InFlightLimiter {
    type V = LimiterState;

    closed spec fn view(&self) -> LimiterState {
        LimiterState { maximum: self.maximum as nat, count: self.count as nat, peak: self.peak as nat }
    }
}

/// Never more in flight than the maximum, and never more than the peak.
pub open spec fn limiter_bounded(s: LimiterState) -> bool {
    s.count <= s.peak <= s.maximum
}

/// The state after a permit is granted.
pub open spec fn limiter_acquired(s: LimiterState) -> LimiterState {
    LimiterState {
        maximum: s.maximum,
        count: s.count + 1,
        peak: if s.count + 1 > s.peak {
            s.count + 1
        } else {
            s.peak
        },
    }
}

/// The state after a permit is returned.
pub open spec fn limiter_released(s: LimiterState) -> LimiterState {
    LimiterState {
        maximum: s.maximum,
        count: if s.count > 0 {
            (s.count - 1) as nat
        } else {
            0
        },
        peak: s.peak,
    }
}

impl InFlightLimiter {
    #[verifier::type_invariant]
    spec fn bounded(self) -> bool {
        self.count <= self.peak <= self.maximum
    }

    /// A limiter with nothing in flight.
    pub fn new(maximum: usize) -> (r: Self)
        ensures
            r@ == (LimiterState { maximum: maximum as nat, count: 0, peak: 0 }),
    {
        InFlightLimiter { maximum, count: 0, peak: 0 }
    }

    /// Grants a permit when fewer than the maximum are in flight; a caller
    /// that is refused waits for a release and asks again.
    pub fn acquire(&mut self) -> (granted: bool)
        ensures
            granted == (old(self)@.count < old(self)@.maximum),
            granted ==> final(self)@ == limiter_acquired(old(self)@),
            !granted ==> final(self)@ == old(self)@,
            limiter_bounded(final(self)@),
    {
        proof {
            use_type_invariant(&*self);
        }
        if self.count >= self.maximum {
            return false;
        }
        let count = self.count + 1;
        let peak = if count > self.peak {
            count
        } else {
            self.peak
        };
        *self = InFlightLimiter { maximum: self.maximum, count, peak };
        true
    }

    /// Returns a permit.
    pub fn release(&mut self)
        ensures
            final(self)@ == limiter_released(old(self)@),
            limiter_bounded(final(self)@),
    {
        proof {
            use_type_invariant(&*self);
        }
        let count = if self.count > 0 {
            self.count - 1
        } else {
            0
        };
        *self = InFlightLimiter { maximum: self.maximum, count, peak: self.peak };
    }

    /// The most invocations that were ever in flight together.
    pub fn peak(&self) -> (r: usize)
        ensures
            r == self@.peak,
            limiter_bounded(self@),
    {
        proof {
            use_type_invariant(self);
        }
        self.peak
    }
}

/// A permit granted and returned leaves as many in flight as before.
pub proof fn lemma_limiter_release_undoes_acquire(s: LimiterState)
    requires
        s.count < s.maximum,
    ensures
        limiter_released(limiter_acquired(s)).count == s.count,
        limiter_released(limiter_acquired(s)).peak >= s.peak,
        limiter_released(limiter_acquired(s)).maximum == s.maximum,
{
}

/// Acquiring and releasing keep a bounded limiter bounded.
pub proof fn lemma_limiter_steps_stay_bounded(s: LimiterState)
    requires
        limiter_bounded(s),
    ensures
        s.count < s.maximum ==> limiter_bounded(limiter_acquired(s)),
        limiter_bounded(limiter_released(s)),
{
}

/// What an acquisition from the pool does next.
#[derive(Debug, PartialEq, Eq)]
pub enum PoolStep {
    /// An idle worker session was leased.
    Reuse(u64),
    /// Capacity allows one more worker: the caller starts it and reports back
    /// with `finish_start`.
    Start,
    /// Every worker is busy and the pool is full: the caller waits for a
    /// release and asks again.
    Wait,
}

/// The mathematical state of a worker pool: each slot's session and whether
/// it is leased, how many workers are being started, how many leases are
/// active, and the counters the pool reports.
pub struct PoolState {
    pub slots: Seq<(u64, bool)>,
    pub starting: nat,
    pub active: nat,
    pub maximum: nat,
    pub spawn_count: nat,
    pub peak_active: nat,
}

/// A bounded pool of worker sessions, each leased to one invocation at a
/// time.
#[derive(Debug)]
pub struct WorkerPool {
    slots: Vec<(u64, bool)>,
    starting: usize,
    active: usize,
    maximum: usize,
    spawn_count: u64,
    peak_active: usize,
}

impl View for WorkerPool {
    type V = PoolState;

    closed spec fn view(&self) -> PoolState {
        PoolState {
            slots: self.slots@,
            starting: self.starting as nat,
            active: self.active as nat,
            maximum: self.maximum as nat,
            spawn_count: self.spawn_count as nat,
            peak_active: self.peak_active as nat,
        }
    }
}

/// Slot `i` is the first idle one.
pub open spec fn first_idle_at(slots: Seq<(u64, bool)>, i: int) -> bool {
    0 <= i < slots.len() && !slots[i].1 && forall|j: int| 0 <= j < i ==> #[trigger] slots[j].1
}

/// Some slot is idle.
pub open spec fn has_idle(slots: Seq<(u64, bool)>) -> bool {
    exists|i: int| 0 <= i < slots.len() && !#[trigger] slots[i].1
}

/// No two slots hold the same session, and every session was started by
/// this pool.
pub open spec fn sessions_distinct(s: PoolState) -> bool {
    &&& forall|i: int, j: int|
        0 <= i < j < s.slots.len() ==> #[trigger] s.slots[i].0 != #[trigger] s.slots[j].0
    &&& forall|i: int| 0 <= i < s.slots.len() ==> #[trigger] s.slots[i].0 < s.spawn_count
}

/// Started and starting workers never exceed the maximum, and the peak
/// covers the active leases.
pub open spec fn pool_bounded(s: PoolState) -> bool {
    &&& s.slots.len() + s.starting <= s.maximum
    &&& s.active <= s.peak_active
    &&& sessions_distinct(s)
}

/// One more active lease, saturating as the pool counts it.
pub open spec fn one_more_active(s: PoolState) -> (nat, nat) {
    let active = if s.active + 1 <= usize::MAX {
        s.active + 1
    } else {
        s.active
    };
    (active, if active > s.peak_active {
        active
    } else {
        s.peak_active
    })
}

/// What `acquire` does to the pool and returns.
pub open spec fn pool_acquired(old: PoolState, new: PoolState, step: PoolStep) -> bool {
    match step {
        PoolStep::Reuse(id) => exists|i: int|
            #[trigger] first_idle_at(old.slots, i) && old.slots[i].0 == id && new == PoolState {
                slots: old.slots.update(i, (id, true)),
                active: one_more_active(old).0,
                peak_active: one_more_active(old).1,
                ..old
            },
        PoolStep::Start => !has_idle(old.slots) && old.slots.len() + old.starting < old.maximum
            && new == PoolState { starting: old.starting + 1, ..old },
        PoolStep::Wait => !has_idle(old.slots) && old.slots.len() + old.starting >= old.maximum
            && new == old,
    }
}

/// What `release` does: one lease fewer; the session's slot is idle again
/// when it may be reused, and gone otherwise.
pub open spec fn pool_released(old: PoolState, new: PoolState, session: u64, reusable: bool) -> bool {
    let active = if old.active > 0 {
        (old.active - 1) as nat
    } else {
        0
    };
    if exists|i: int| 0 <= i < old.slots.len() && #[trigger] old.slots[i].0 == session {
        exists|i: int|
            0 <= i < old.slots.len() && #[trigger] old.slots[i].0 == session && new == PoolState {
                slots: if reusable {
                    old.slots.update(i, (session, false))
                } else {
                    old.slots.update(i, old.slots.last()).drop_last()
                },
                active,
                ..old
            }
    } else {
        new == PoolState { active, ..old }
    }
}

impl WorkerPool {
    #[verifier::type_invariant]
    spec fn pool_inv(self) -> bool {
        pool_bounded(self@)
    }

    /// An empty pool of at most `maximum` workers.
    pub fn new(maximum: usize) -> (r: Self)
        ensures
            r@ == (PoolState {
                slots: Seq::empty(),
                starting: 0,
                active: 0,
                maximum: maximum as nat,
                spawn_count: 0,
                peak_active: 0,
            }),
    {
        WorkerPool {
            slots: Vec::new(),
            starting: 0,
            active: 0,
            maximum,
            spawn_count: 0,
            peak_active: 0,
        }
    }

    /// Leases the first idle worker; else, below capacity, asks the caller to
    /// start one; else asks it to wait.
    pub fn acquire(&mut self) -> (step: PoolStep)
        ensures
            pool_acquired(old(self)@, final(self)@, step),
            pool_bounded(final(self)@),
    {
        proof {
            use_type_invariant(&*self);
        }
        let mut i: usize = 0;
        while i < self.slots.len()
            invariant
                i <= self.slots@.len(),
                self@ == old(self)@,
                pool_bounded(old(self)@),
                forall|j: int| 0 <= j < i ==> #[trigger] self.slots@[j].1,
            decreases self.slots.len() - i,
        {
            if !self.slots[i].1 {
                let id = self.slots[i].0;
                let (active, peak_active) = self.one_more_active();
                let mut slots = self.take_slots();
                slots.set(i, (id, true));
                proof {
                    assert(first_idle_at(old(self)@.slots, i as int));
                    assert forall|a: int, b: int| 0 <= a < b < slots@.len() implies #[trigger] slots@[a].0
                        != #[trigger] slots@[b].0 by {
                        assert(slots@[a].0 == old(self)@.slots[a].0);
                        assert(slots@[b].0 == old(self)@.slots[b].0);
                    }
                    assert forall|a: int| 0 <= a < slots@.len() implies #[trigger] slots@[a].0
                        < old(self)@.spawn_count by {
                        assert(slots@[a].0 == old(self)@.slots[a].0);
                    }
                }
                *self = WorkerPool {
                    slots,
                    starting: self.starting,
                    active,
                    maximum: self.maximum,
                    spawn_count: self.spawn_count,
                    peak_active,
                };
                return PoolStep::Reuse(id);
            }
            i = i + 1;
        }
        if self.slots.len() < self.maximum && self.starting < self.maximum - self.slots.len() {
            let slots = self.take_slots();
            *self = WorkerPool {
                slots,
                starting: self.starting + 1,
                active: self.active,
                maximum: self.maximum,
                spawn_count: self.spawn_count,
                peak_active: self.peak_active,
            };
            PoolStep::Start
        } else {
            PoolStep::Wait
        }
    }

    /// The pool's slots, leaving none in their place (a pool without slots
    /// is always bounded).
    fn take_slots(&mut self) -> (slots: Vec<(u64, bool)>)
        ensures
            slots@ == old(self)@.slots,
            final(self)@ == (PoolState { slots: Seq::empty(), ..old(self)@ }),
    {
        proof {
            use_type_invariant(&*self);
        }
        let mut slots: Vec<(u64, bool)> = Vec::new();
        std::mem::swap(&mut slots, &mut self.slots);
        slots
    }

    fn one_more_active(&self) -> (r: (usize, usize))
        ensures
            (r.0 as nat, r.1 as nat) == one_more_active(self@),
    {
        let active = if self.active < usize::MAX {
            self.active + 1
        } else {
            self.active
        };
        let peak = if active > self.peak_active {
            active
        } else {
            self.peak_active
        };
        (active, peak)
    }

    /// Records how a start that `acquire` asked for ended: a started worker
    /// joins the pool leased, under the next session number.
    pub fn finish_start(&mut self, started: bool) -> (session: Option<u64>)
        requires
            old(self)@.starting > 0,
            old(self)@.spawn_count < u64::MAX,
        ensures
            started ==> session == Some(old(self)@.spawn_count as u64) && final(self)@ == (PoolState {
                slots: old(self)@.slots.push((old(self)@.spawn_count as u64, true)),
                starting: (old(self)@.starting - 1) as nat,
                spawn_count: old(self)@.spawn_count + 1,
                active: one_more_active(old(self)@).0,
                peak_active: one_more_active(old(self)@).1,
                ..old(self)@
            }),
            !started ==> session is None && final(self)@ == (PoolState {
                starting: (old(self)@.starting - 1) as nat,
                ..old(self)@
            }),
            pool_bounded(final(self)@),
    {
        proof {
            use_type_invariant(&*self);
        }
        let starting = self.starting - 1;
        if !started {
            let slots = self.take_slots();
            *self = WorkerPool {
                slots,
                starting,
                active: self.active,
                maximum: self.maximum,
                spawn_count: self.spawn_count,
                peak_active: self.peak_active,
            };
            return None;
        }
        let id = self.spawn_count;
        let (active, peak_active) = self.one_more_active();
        let mut slots = self.take_slots();
        slots.push((id, true));
        proof {
            assert forall|a: int, b: int| 0 <= a < b < slots@.len() implies #[trigger] slots@[a].0
                != #[trigger] slots@[b].0 by {
                if b == slots@.len() - 1 {
                    assert(slots@[a].0 == old(self)@.slots[a].0);
                } else {
                    assert(slots@[a].0 == old(self)@.slots[a].0);
                    assert(slots@[b].0 == old(self)@.slots[b].0);
                }
            }
            assert forall|a: int| 0 <= a < slots@.len() implies #[trigger] slots@[a].0 < id + 1 by {
                if a < slots@.len() - 1 {
                    assert(slots@[a].0 == old(self)@.slots[a].0);
                }
            }
        }
        *self = WorkerPool {
            slots,
            starting,
            active,
            maximum: self.maximum,
            spawn_count: id + 1,
            peak_active,
        };
        Some(id)
    }

    /// Ends the lease of `session`: a reusable worker becomes idle again,
    /// any other leaves the pool.
    pub fn release(&mut self, session: u64, reusable: bool)
        ensures
            pool_released(old(self)@, final(self)@, session, reusable),
            pool_bounded(final(self)@),
    {
        proof {
            use_type_invariant(&*self);
        }
        let active = if self.active > 0 {
            self.active - 1
        } else {
            0
        };
        let mut i: usize = 0;
        while i < self.slots.len()
            invariant
                i <= self.slots@.len(),
                self@ == old(self)@,
                pool_bounded(old(self)@),
                active == (if old(self)@.active > 0 { (old(self)@.active - 1) as nat } else { 0 }),
                forall|j: int| 0 <= j < i ==> #[trigger] self.slots@[j].0 != session,
            decreases self.slots.len() - i,
        {
            if self.slots[i].0 == session {
                let mut slots = self.take_slots();
                let ghost before = slots@;
                if reusable {
                    slots.set(i, (session, false));
                } else {
                    slots.swap_remove(i);
                }
                proof {
                    assert(0 <= i < old(self)@.slots.len() && old(self)@.slots[i as int].0 == session);
                    assert forall|a: int| 0 <= a < slots@.len() implies exists|k: int|
                        0 <= k < before.len() && #[trigger] slots@[a].0 == before[k].0 by {
                        if reusable {
                            assert(slots@[a].0 == before[a].0);
                        } else if a == i {
                            assert(slots@[a].0 == before[before.len() - 1].0);
                        } else {
                            assert(slots@[a].0 == before[a].0);
                        }
                    }
                    assert forall|a: int, b: int| 0 <= a < b < slots@.len() implies #[trigger] slots@[a].0
                        != #[trigger] slots@[b].0 by {
                        let last = before.len() - 1;
                        let ia = if !reusable && a == i { last } else { a };
                        let ib = if !reusable && b == i { last } else { b };
                        assert(slots@[a].0 == before[ia].0);
                        assert(slots@[b].0 == before[ib].0);
                        assert(ia != ib);
                        if ia < ib {
                            assert(before[ia].0 != before[ib].0);
                        } else {
                            assert(before[ib].0 != before[ia].0);
                        }
                    }
                    assert forall|a: int| 0 <= a < slots@.len() implies #[trigger] slots@[a].0
                        < old(self)@.spawn_count by {
                        let k = choose|k: int| 0 <= k < before.len() && #[trigger] slots@[a].0 == before[k].0;
                        assert(before[k].0 < old(self)@.spawn_count);
                    }
                }
                *self = WorkerPool {
                    slots,
                    starting: self.starting,
                    active,
                    maximum: self.maximum,
                    spawn_count: self.spawn_count,
                    peak_active: self.peak_active,
                };
                return;
            }
            i = i + 1;
        }
        let slots = self.take_slots();
        *self = WorkerPool {
            slots,
            starting: self.starting,
            active,
            maximum: self.maximum,
            spawn_count: self.spawn_count,
            peak_active: self.peak_active,
        };
    }

    /// How many workers the pool has started.
    pub fn spawn_count(&self) -> (r: u64)
        ensures
            r == self@.spawn_count,
    {
        self.spawn_count
    }

    /// The most leases that were ever active together.
    pub fn peak_active(&self) -> (r: usize)
        ensures
            r == self@.peak_active,
            pool_bounded(self@),
    {
        proof {
            use_type_invariant(self);
        }
        self.peak_active
    }
}

/// A pool that refuses to start a worker is full: its started and starting
/// workers already number the maximum, and all of them are leased.
pub proof fn lemma_pool_waits_only_when_full(old: PoolState, new: PoolState)
    requires
        pool_bounded(old),
        pool_acquired(old, new, PoolStep::Wait),
    ensures
        old.slots.len() + old.starting == old.maximum,
        forall|i: int| 0 <= i < old.slots.len() ==> #[trigger] old.slots[i].1,
        new == old,
{
    assert forall|i: int| 0 <= i < old.slots.len() implies #[trigger] old.slots[i].1 by {
        if !old.slots[i].1 {
            assert(has_idle(old.slots));
        }
    }
}

/// A reusable lease, released, leaves its worker idle for the next
/// acquisition and the pool's size unchanged.
pub proof fn lemma_pool_release_keeps_reusable_worker(old: PoolState, new: PoolState, session: u64, i: int)
    requires
        pool_bounded(old),
        0 <= i < old.slots.len(),
        old.slots[i].0 == session,
        pool_released(old, new, session, true),
    ensures
        new.slots.len() == old.slots.len(),
        new.slots[i] == (session, false),
        has_idle(new.slots),
{
    let k = choose|k: int|
        0 <= k < old.slots.len() && #[trigger] old.slots[k].0 == session && new == PoolState {
            slots: old.slots.update(k, (session, false)),
            active: if old.active > 0 {
                (old.active - 1) as nat
            } else {
                0
            },
            ..old
        };
    if k != i {
        if k < i {
            assert(old.slots[k].0 != old.slots[i].0);
        } else {
            assert(old.slots[i].0 != old.slots[k].0);
        }
    }
    assert(!new.slots[i].1);
}

} // verus!
