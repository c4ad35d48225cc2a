//! A bounded pool of reusable, expensive values.
//!
//! The pool decides; its caller waits. `acquire` answers with an idle value,
//! with a numbered slot to fill with a newly built value, or with the news that
//! the caller must wait for the next release. `release` hands a value back:
//! to the earliest waiter if there is one, else to the idle supply.
use vstd::prelude::*;

verus! {

/// A value lent out by a pool, with the number it was built under.
pub struct PoolValue<T> {
    value: T,
    number: usize,
}

impl<T> PoolValue<T> {
    pub closed spec fn spec_number(&self) -> nat {
        self.number as nat
    }

    pub closed spec fn spec_value(&self) -> T {
        self.value
    }

    pub fn number(&self) -> (r: usize)
        ensures
            r == self.spec_number(),
    {
        self.number
    }

    pub fn value(&self) -> (r: &T)
        ensures
            *r == self.spec_value(),
    {
        &self.value
    }
}

/// The right to build the value numbered `number`; only a pool makes one.
pub struct Slot {
    number: usize,
}

impl Slot {
    pub closed spec fn spec_number(&self) -> nat {
        self.number as nat
    }

    pub fn number(&self) -> (r: usize)
        ensures
            r == self.spec_number(),
    {
        self.number
    }

    /// The newly built value, under the slot's number.
    pub fn fill<T>(self, value: T) -> (r: PoolValue<T>)
        ensures
            r.spec_number() == self.spec_number(),
            r.spec_value() == value,
    {
        PoolValue { value, number: self.number }
    }
}

/// What `acquire` tells its caller to do.
pub enum Acquire<T> {
    /// An idle value, ready for use.
    Ready(PoolValue<T>),
    /// Build a value and put it in this slot.
    Create(Slot),
    /// Wait: a later release hands a value over.
    Wait,
}

/// What became of a released value.
pub enum Release<T> {
    /// Give it to the earliest waiter.
    Handoff(PoolValue<T>),
    /// It joined the idle supply.
    Idle,
}

/// The state of a pool as numbers: its bound, its first number, how many
/// values were ever built, the numbers of the idle ones in the order they came
/// back, how many are lent out, and how many callers wait.
pub struct PoolView {
    pub capacity: nat,
    pub start: nat,
    pub count: nat,
    pub idle: Seq<nat>,
    pub lent: nat,
    pub waiting: nat,
}

/// The pool's answer to `acquire`, as numbers.
pub enum AcquireOutcome {
    Ready(nat),
    Create(nat),
    Wait,
}

/// The pool's answer to `release`, as numbers.
pub enum ReleaseOutcome {
    Handoff(nat),
    Idle,
}

/// What `acquire` does to a pool in state `s`.
pub open spec fn acquire_step(s: PoolView) -> (PoolView, AcquireOutcome) {
    if s.idle.len() > 0 {
        (PoolView { idle: s.idle.drop_first(), lent: s.lent + 1, ..s }, AcquireOutcome::Ready(s.idle[0]))
    } else if s.count < s.capacity {
        (PoolView { count: s.count + 1, lent: s.lent + 1, ..s }, AcquireOutcome::Create(s.start + s.count))
    } else {
        (PoolView { waiting: s.waiting + 1, ..s }, AcquireOutcome::Wait)
    }
}

/// What releasing the value numbered `n` does to a pool in state `s`.
pub open spec fn release_step(s: PoolView, n: nat) -> (PoolView, ReleaseOutcome) {
    if s.waiting > 0 {
        (PoolView { waiting: (s.waiting - 1) as nat, ..s }, ReleaseOutcome::Handoff(n))
    } else {
        (PoolView { idle: s.idle.push(n), lent: (s.lent - 1) as nat, ..s }, ReleaseOutcome::Idle)
    }
}

pub open spec fn acquire_outcome<T>(r: Acquire<T>) -> AcquireOutcome {
    match r {
        Acquire::Ready(v) => AcquireOutcome::Ready(v.spec_number()),
        Acquire::Create(slot) => AcquireOutcome::Create(slot.spec_number()),
        Acquire::Wait => AcquireOutcome::Wait,
    }
}

pub open spec fn release_outcome<T>(r: Release<T>) -> ReleaseOutcome {
    match r {
        Release::Handoff(v) => ReleaseOutcome::Handoff(v.spec_number()),
        Release::Idle => ReleaseOutcome::Idle,
    }
}

/// The state after `k` calls of `acquire` from state `s`.
pub open spec fn acquire_n(s: PoolView, k: nat) -> PoolView
    decreases k,
{
    if k == 0 {
        s
    } else {
        acquire_step(acquire_n(s, (k - 1) as nat)).0
    }
}

/// A bounded pool: at most `capacity` values are ever built, numbered from
/// `number_start_from` on.
pub struct Pool<T> {
    idle: Vec<PoolValue<T>>,
    capacity: usize,
    number_start_from: usize,
    count: usize,
    lent: usize,
    waiting: usize,
}

impl<T> Pool<T> {
    pub closed spec fn view(&self) -> PoolView {
        PoolView {
            capacity: self.capacity as nat,
            start: self.number_start_from as nat,
            count: self.count as nat,
            idle: self.idle@.map_values(|v: PoolValue<T>| v.spec_number()),
            lent: self.lent as nat,
            waiting: self.waiting as nat,
        }
    }

    /// Never more values are built than the bound allows, every number fits
    /// a `usize`, and every value built is either idle or lent out.
    pub open spec fn wf(&self) -> bool {
        &&& self.view().count <= self.view().capacity
        &&& self.view().start + self.view().capacity <= usize::MAX
        &&& self.view().idle.len() + self.view().lent == self.view().count
    }

    /// The value at position `i` of the idle supply.
    pub closed spec fn idle_value(&self, i: int) -> T {
        self.idle@[i].spec_value()
    }

    pub fn new(max_capacity: usize, number_start_from: usize) -> (r: Pool<T>)
        requires
            number_start_from + max_capacity <= usize::MAX,
        ensures
            r.wf(),
            r.view() == (PoolView {
                capacity: max_capacity as nat,
                start: number_start_from as nat,
                count: 0,
                idle: Seq::empty(),
                lent: 0,
                waiting: 0,
            }),
    {
        let r = Pool { idle: Vec::new(), capacity: max_capacity, number_start_from, count: 0, lent: 0, waiting: 0 };
        assert(r.view().idle =~= Seq::empty());
        r
    }

    pub fn capacity(&self) -> (r: usize)
        ensures
            r == self.view().capacity,
    {
        self.capacity
    }

    /// How many values were ever built.
    pub fn count(&self) -> (r: usize)
        ensures
            r == self.view().count,
    {
        self.count
    }

    /// How many values are idle.
    pub fn idle_len(&self) -> (r: usize)
        ensures
            r == self.view().idle.len(),
    {
        self.idle.len()
    }

    /// How many values are lent out.
    pub fn lent(&self) -> (r: usize)
        ensures
            r == self.view().lent,
    {
        self.lent
    }

    /// How many callers wait for a release.
    pub fn waiting(&self) -> (r: usize)
        ensures
            r == self.view().waiting,
    {
        self.waiting
    }

    /// An idle value if there is one (the one idle longest); else a slot for
    /// a new value while fewer than `capacity` were built; else the caller
    /// joins the waiters.
    pub fn acquire(&mut self) -> (r: Acquire<T>)
        requires
            old(self).wf(),
            old(self).view().waiting < usize::MAX,
        ensures
            final(self).wf(),
            (final(self).view(), acquire_outcome(r)) == acquire_step(old(self).view()),
            r matches Acquire::Ready(v) ==> v.spec_value() == old(self).idle_value(0),
    {
        if self.idle.len() > 0 {
            let v = self.idle.remove(0);
            self.lent = self.lent + 1;
            assert(self.view().idle =~= old(self).view().idle.drop_first());
            Acquire::Ready(v)
        } else if self.count < self.capacity {
            let number = self.number_start_from + self.count;
            self.count = self.count + 1;
            self.lent = self.lent + 1;
            assert(self.view().idle =~= old(self).view().idle);
            Acquire::Create(Slot { number })
        } else {
            self.waiting = self.waiting + 1;
            assert(self.view().idle =~= old(self).view().idle);
            Acquire::Wait
        }
    }

    /// Takes a value back: it goes to the earliest waiter if any, else to the
    /// end of the idle supply.
    pub fn release(&mut self, v: PoolValue<T>) -> (r: Release<T>)
        requires
            old(self).wf(),
            old(self).view().lent > 0,
        ensures
            final(self).wf(),
            (final(self).view(), release_outcome(r)) == release_step(old(self).view(), v.spec_number()),
            r matches Release::Handoff(w) ==> w == v,
    {
        if self.waiting > 0 {
            self.waiting = self.waiting - 1;
            assert(self.view().idle =~= old(self).view().idle);
            Release::Handoff(v)
        } else {
            self.idle.push(v);
            self.lent = self.lent - 1;
            assert(self.view().idle =~= old(self).view().idle.push(v.spec_number()));
            Release::Idle
        }
    }

    /// A waiter gave up before a value reached it.
    pub fn cancel_wait(&mut self)
        requires
            old(self).wf(),
        ensures
            final(self).wf(),
            final(self).view() == (PoolView {
                waiting: if old(self).view().waiting > 0 {
                    (old(self).view().waiting - 1) as nat
                } else {
                    0
                },
                ..old(self).view()
            }),
    {
        if self.waiting > 0 {
            self.waiting = self.waiting - 1;
        }
        assert(self.view().idle =~= old(self).view().idle);
    }
}

/// From a fresh pool of capacity `n`, the first `n` acquisitions each build a
/// new value, numbered `start`, `start + 1`, ... in turn; the next one waits.
/// Never more than `n` values are built.
pub proof fn lemma_capacity_bound(n: nat, start: nat)
    ensures
        ({
            let s0 = PoolView { capacity: n, start, count: 0, idle: Seq::empty(), lent: 0, waiting: 0 };
            &&& forall|k: nat| k < n ==> #[trigger] acquire_step(acquire_n(s0, k)).1 == AcquireOutcome::Create(start + k)
            &&& acquire_step(acquire_n(s0, n)).1 == AcquireOutcome::Wait
            &&& acquire_n(s0, n + 1).count == n
            &&& acquire_n(s0, n + 1).waiting == 1
        }),
{
    let s0 = PoolView { capacity: n, start, count: 0, idle: Seq::empty(), lent: 0, waiting: 0 };
    lemma_acquire_n_fresh(s0, n);
    assert forall|k: nat| k < n implies #[trigger] acquire_step(acquire_n(s0, k)).1 == AcquireOutcome::Create(start + k) by {
        lemma_acquire_n_fresh(s0, k);
    }
}

proof fn lemma_acquire_n_fresh(s0: PoolView, k: nat)
    requires
        s0.count == 0,
        s0.idle.len() == 0,
        s0.waiting == 0,
        s0.lent == 0,
        k <= s0.capacity,
    ensures
        acquire_n(s0, k) == (PoolView { count: k, lent: k, ..s0 }),
    decreases k,
{
    if k > 0 {
        lemma_acquire_n_fresh(s0, (k - 1) as nat);
    }
}

/// A release while callers wait unblocks exactly one of them, with the very
/// value released, and adds nothing to the idle supply; the built count is
/// unchanged, so the bound keeps holding.
pub proof fn lemma_release_wakes_one(s: PoolView, n: nat)
    requires
        s.waiting > 0,
    ensures
        release_step(s, n).1 == ReleaseOutcome::Handoff(n),
        release_step(s, n).0.waiting == s.waiting - 1,
        release_step(s, n).0.idle == s.idle,
        release_step(s, n).0.count == s.count,
{
}

/// A value that went idle is the one the next acquisition gets back, when no
/// other value was idle: it is reused, not rebuilt.
pub proof fn lemma_reuse(s: PoolView, n: nat)
    requires
        s.waiting == 0,
        s.lent > 0,
        s.idle.len() == 0,
    ensures
        acquire_step(release_step(s, n).0).1 == AcquireOutcome::Ready(n),
        acquire_step(release_step(s, n).0).0.count == s.count,
{
}

/// Every step keeps the number of values built within the bound, and every
/// value built either idle or lent out.
pub proof fn lemma_count_bounded(s: PoolView, n: nat)
    requires
        s.count <= s.capacity,
        s.idle.len() + s.lent == s.count,
    ensures
        acquire_step(s).0.idle.len() + acquire_step(s).0.lent == acquire_step(s).0.count,
        s.lent > 0 ==> release_step(s, n).0.idle.len() + release_step(s, n).0.lent == release_step(s, n).0.count,
        acquire_step(s).0.count <= s.capacity,
        release_step(s, n).0.count <= s.capacity,
        acquire_step(s).0.capacity == s.capacity,
        release_step(s, n).0.capacity == s.capacity,
{
}

} // verus!
