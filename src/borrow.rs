use vstd::prelude::*;
use crate::error::Borrow;

verus! {

/// Borrow state of one resource: free, `n > 0` live shared borrows, or one
/// live exclusive borrow.
#[derive(Clone, Copy, Debug, PartialEq, Eq, Structural)]
pub enum BorrowState {
    Free,
    Shared(u64),
    Unique,
}

/// One request made of a borrow state.
#[derive(Clone, Copy, Debug, PartialEq, Eq, Structural)]
pub enum CellOp {
    AcquireShared,
    AcquireUnique,
    ReleaseShared,
    ReleaseUnique,
}

/// Access mode asked for when resolving a view.
#[derive(Clone, Copy, Debug, PartialEq, Eq, Structural)]
pub enum Mode {
    Shared,
    Unique,
}

impl BorrowState {
    pub open spec fn wf(self) -> bool {
        self matches BorrowState::Shared(n) ==> n > 0
    }

    pub open spec fn shared_count(self) -> nat {
        match self {
            BorrowState::Shared(n) => n as nat,
            _ => 0,
        }
    }

    pub open spec fn unique_count(self) -> nat {
        match self {
            BorrowState::Unique => 1,
            _ => 0,
        }
    }

    /// Outcome of asking for a shared borrow.
    pub open spec fn acquire_shared_spec(self) -> Result<BorrowState, Borrow> {
        match self {
            BorrowState::Free => Ok(BorrowState::Shared(1)),
            BorrowState::Shared(n) => Ok(BorrowState::Shared((n + 1) as u64)),
            BorrowState::Unique => Err(Borrow::Shared),
        }
    }

    /// Outcome of asking for an exclusive borrow.
    pub open spec fn acquire_unique_spec(self) -> Result<BorrowState, Borrow> {
        match self {
            BorrowState::Free => Ok(BorrowState::Unique),
            _ => Err(Borrow::Unique),
        }
    }

    pub open spec fn release_shared_spec(self) -> BorrowState {
        match self {
            BorrowState::Shared(n) => if n <= 1 {
                BorrowState::Free
            } else {
                BorrowState::Shared((n - 1) as u64)
            },
            _ => self,
        }
    }

    pub open spec fn release_unique_spec(self) -> BorrowState {
        match self {
            BorrowState::Unique => BorrowState::Free,
            _ => self,
        }
    }

    /// State after one request; a refused request leaves the state as it was.
    pub open spec fn step(self, op: CellOp) -> BorrowState {
        match op {
            CellOp::AcquireShared => match self.acquire_shared_spec() {
                Ok(s) => s,
                Err(_) => self,
            },
            CellOp::AcquireUnique => match self.acquire_unique_spec() {
                Ok(s) => s,
                Err(_) => self,
            },
            CellOp::ReleaseShared => self.release_shared_spec(),
            CellOp::ReleaseUnique => self.release_unique_spec(),
        }
    }

    pub fn acquire_shared(&mut self) -> (r: Result<(), Borrow>)
        requires
            old(self).wf(),
            old(self).shared_count() < u64::MAX,
        ensures
            final(self).wf(),
            match old(self).acquire_shared_spec() {
                Ok(s) => r is Ok && *final(self) == s,
                Err(e) => r == Err::<(), Borrow>(e) && *final(self) == *old(self),
            },
    {
        match *self {
            BorrowState::Free => {
                *self = BorrowState::Shared(1);
                Ok(())
            },
            BorrowState::Shared(n) => {
                *self = BorrowState::Shared(n + 1);
                Ok(())
            },
            BorrowState::Unique => Err(Borrow::Shared),
        }
    }

    pub fn acquire_unique(&mut self) -> (r: Result<(), Borrow>)
        requires
            old(self).wf(),
        ensures
            final(self).wf(),
            match old(self).acquire_unique_spec() {
                Ok(s) => r is Ok && *final(self) == s,
                Err(e) => r == Err::<(), Borrow>(e) && *final(self) == *old(self),
            },
    {
        match *self {
            BorrowState::Free => {
                *self = BorrowState::Unique;
                Ok(())
            },
            _ => Err(Borrow::Unique),
        }
    }

    pub fn release_shared(&mut self)
        requires
            old(self).wf(),
            *old(self) is Shared,
        ensures
            final(self).wf(),
            *final(self) == old(self).release_shared_spec(),
    {
        match *self {
            BorrowState::Shared(n) => {
                if n <= 1 {
                    *self = BorrowState::Free;
                } else {
                    *self = BorrowState::Shared(n - 1);
                }
            },
            _ => {},
        }
    }

    pub fn release_unique(&mut self)
        requires
            old(self).wf(),
            *old(self) is Unique,
        ensures
            final(self).wf(),
            *final(self) == old(self).release_unique_spec(),
    {
        *self = BorrowState::Free;
    }
}

/// State reached from `Free` by the requests of `ops`, in order.
pub open spec fn run(ops: Seq<CellOp>) -> BorrowState
    decreases ops.len(),
{
    if ops.len() == 0 {
        BorrowState::Free
    } else {
        run(ops.drop_last()).step(ops.last())
    }
}

/// Along any sequence of requests, at most one exclusive borrow is live, never
/// together with a shared one; a conflicting request is refused with its
/// class: `Unique` when an exclusive borrow meets any borrow, `Shared` when a
/// shared borrow meets an exclusive one.
pub proof fn lemma_borrows_stay_exclusive(ops: Seq<CellOp>)
    requires
        ops.len() < u64::MAX,
    ensures
        run(ops).wf(),
        run(ops).shared_count() <= ops.len(),
        run(ops).unique_count() <= 1,
        run(ops).unique_count() == 1 ==> run(ops).shared_count() == 0,
        run(ops) != BorrowState::Free ==> run(ops).acquire_unique_spec() == Err::<
            BorrowState,
            Borrow,
        >(Borrow::Unique),
        run(ops) is Unique ==> run(ops).acquire_shared_spec() == Err::<BorrowState, Borrow>(
            Borrow::Shared,
        ),
        !(run(ops) is Unique) ==> run(ops).acquire_shared_spec() is Ok,
    decreases ops.len(),
{
    if ops.len() > 0 {
        lemma_borrows_stay_exclusive(ops.drop_last());
    }
}

/// A resource guarded by a run-time checked borrow state. Requests never
/// wait: a conflicting one fails at once and leaves the state unchanged.
///
/// Each cell carries the key it was created with, and each guard the key of
/// the cell that issued it, so a guard only fits its own cell.
pub struct AliasingCell<T> {
    key: u64,
    value: T,
    state: BorrowState,
}

/// Token for a live shared borrow of a cell.
pub struct SharedGuard {
    cell: u64,
}

/// Token for the live exclusive borrow of a cell.
pub struct UniqueGuard {
    cell: u64,
}

impl SharedGuard {
    /// Key of the cell that issued the guard.
    pub closed spec fn cell(&self) -> u64 {
        self.cell
    }
}

impl UniqueGuard {
    /// Key of the cell that issued the guard.
    pub closed spec fn cell(&self) -> u64 {
        self.cell
    }
}

impl<T> AliasingCell<T> {
    pub closed spec fn state(&self) -> BorrowState {
        self.state
    }

    pub closed spec fn value(&self) -> T {
        self.value
    }

    pub closed spec fn key(&self) -> u64 {
        self.key
    }

    pub open spec fn wf(&self) -> bool {
        self.state().wf()
    }

    pub fn new(key: u64, value: T) -> (r: Self)
        ensures
            r.wf(),
            r.state() == BorrowState::Free,
            r.value() == value,
            r.key() == key,
    {
        AliasingCell { key, value, state: BorrowState::Free }
    }

    pub fn borrow_state(&self) -> (r: BorrowState)
        ensures
            r == self.state(),
    {
        self.state
    }

    pub fn acquire_shared(&mut self) -> (r: Result<SharedGuard, Borrow>)
        requires
            old(self).wf(),
            old(self).state().shared_count() < u64::MAX,
        ensures
            final(self).wf(),
            final(self).value() == old(self).value(),
            final(self).key() == old(self).key(),
            match old(self).state().acquire_shared_spec() {
                Ok(s) => r matches Ok(g) && g.cell() == old(self).key() && final(self).state() == s,
                Err(e) => r matches Err(x) && x == e && final(self).state() == old(self).state(),
            },
    {
        match self.state.acquire_shared() {
            Ok(()) => Ok(SharedGuard { cell: self.key }),
            Err(e) => Err(e),
        }
    }

    pub fn acquire_unique(&mut self) -> (r: Result<UniqueGuard, Borrow>)
        requires
            old(self).wf(),
        ensures
            final(self).wf(),
            final(self).value() == old(self).value(),
            final(self).key() == old(self).key(),
            match old(self).state().acquire_unique_spec() {
                Ok(s) => r matches Ok(g) && g.cell() == old(self).key() && final(self).state() == s,
                Err(e) => r matches Err(x) && x == e && final(self).state() == old(self).state(),
            },
    {
        match self.state.acquire_unique() {
            Ok(()) => Ok(UniqueGuard { cell: self.key }),
            Err(e) => Err(e),
        }
    }

    /// Ends a shared borrow, giving its token back.
    pub fn release_shared(&mut self, guard: SharedGuard)
        requires
            old(self).wf(),
            old(self).state() is Shared,
            guard.cell() == old(self).key(),
        ensures
            final(self).wf(),
            final(self).value() == old(self).value(),
            final(self).key() == old(self).key(),
            final(self).state() == old(self).state().release_shared_spec(),
    {
        self.state.release_shared();
    }

    /// Ends the exclusive borrow, giving its token back.
    pub fn release_unique(&mut self, guard: UniqueGuard)
        requires
            old(self).wf(),
            old(self).state() is Unique,
            guard.cell() == old(self).key(),
        ensures
            final(self).wf(),
            final(self).value() == old(self).value(),
            final(self).key() == old(self).key(),
            final(self).state() == BorrowState::Free,
    {
        self.state.release_unique();
    }

    /// Reads the resource under a shared borrow.
    pub fn get(&self, guard: &SharedGuard) -> (r: &T)
        requires
            self.state() is Shared,
            guard.cell() == self.key(),
        ensures
            *r == self.value(),
    {
        &self.value
    }

    /// Overwrites the resource under the exclusive borrow.
    pub fn set(&mut self, guard: &UniqueGuard, value: T)
        requires
            old(self).state() is Unique,
            guard.cell() == old(self).key(),
        ensures
            final(self).value() == value,
            final(self).state() == old(self).state(),
            final(self).key() == old(self).key(),
    {
        self.value = value;
    }
}

} // verus!
