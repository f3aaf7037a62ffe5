//! A cell that lends its value out under a rule checked while the program
//! runs: any number of shared borrows, or one exclusive borrow, never both.

use vstd::prelude::*;

verus! {

/// How a cell is lent out at this moment.
#[derive(Clone, Copy, Debug, PartialEq, Eq, Structural)]
pub enum BorrowState {
    /// No guard is outstanding.
    Unborrowed,
    /// This many shared guards are outstanding; the number is at least one.
    SharedBorrowed(usize),
    /// One exclusive guard is outstanding.
    ExclusivelyBorrowed,
}

impl BorrowState {
    /// `SharedBorrowed(0)` is not a state: the last shared release goes back
    /// to `Unborrowed`.
    pub open spec fn wf(self) -> bool {
        self matches BorrowState::SharedBorrowed(n) ==> n >= 1
    }

    /// Number of shared guards outstanding.
    pub open spec fn shared(self) -> nat {
        match self {
            BorrowState::SharedBorrowed(n) => n as nat,
            _ => 0,
        }
    }

    /// Number of exclusive guards outstanding.
    pub open spec fn exclusive(self) -> nat {
        match self {
            BorrowState::ExclusivelyBorrowed => 1,
            _ => 0,
        }
    }

    /// A shared borrow is granted unless an exclusive guard is out.
    pub open spec fn admits_shared(self) -> bool {
        !(self is ExclusivelyBorrowed)
    }

    /// An exclusive borrow is granted only when nothing is out.
    pub open spec fn admits_exclusive(self) -> bool {
        self is Unborrowed
    }

    /// The state after a granted shared borrow.
    pub open spec fn acquire_shared(self) -> BorrowState {
        BorrowState::SharedBorrowed((self.shared() + 1) as usize)
    }

    /// The state after a granted exclusive borrow.
    pub open spec fn acquire_exclusive(self) -> BorrowState {
        BorrowState::ExclusivelyBorrowed
    }

    /// The state after one shared guard is given back.
    pub open spec fn release_shared(self) -> BorrowState {
        if self.shared() <= 1 {
            BorrowState::Unborrowed
        } else {
            BorrowState::SharedBorrowed((self.shared() - 1) as usize)
        }
    }

    /// The state after the exclusive guard is given back.
    pub open spec fn release_exclusive(self) -> BorrowState {
        BorrowState::Unborrowed
    }
}

/// A borrow was asked for that the cell's state does not admit.
#[derive(Clone, Copy, Debug, PartialEq, Eq, Structural)]
pub struct BorrowConflict;

/// Proof of one granted shared borrow. It is given back with
/// [`MutCell::release`].
#[derive(Debug)]
pub struct SharedGuard {
    token: (),
}

/// Proof of the granted exclusive borrow. It is given back with
/// [`MutCell::release_mut`].
#[derive(Debug)]
pub struct ExclusiveGuard {
    token: (),
}

/// A value together with the record of how it is lent out.
pub struct MutCell<T> {
    value: T,
    state: BorrowState,
}

impl<T> MutCell<T> {
    /// The value held.
    pub closed spec fn value(&self) -> T {
        self.value
    }

    /// How the cell is lent out.
    pub closed spec fn state(&self) -> BorrowState {
        self.state
    }

    /// The record is a state of the machine.
    pub open spec fn wf(&self) -> bool {
        self.state().wf()
    }

    /// A cell holding `value`, with nothing lent out.
    pub fn new(value: T) -> (cell: Self)
        ensures
            cell.wf(),
            cell.value() == value,
            cell.state() == BorrowState::Unborrowed,
    {
        MutCell { value, state: BorrowState::Unborrowed }
    }

    /// A shared borrow that lasts as long as the returned reference, and so
    /// needs no guard. It is refused exactly when the exclusive guard is
    /// outstanding.
    pub fn read(&self) -> (r: Result<&T, BorrowConflict>)
        ensures
            r is Ok <==> self.state().admits_shared(),
            r matches Ok(v) ==> *v == self.value(),
    {
        match self.state {
            BorrowState::ExclusivelyBorrowed => Err(BorrowConflict),
            _ => Ok(&self.value),
        }
    }

    /// Puts `value` in the cell and returns what was there, under an
    /// exclusive borrow that is taken and given back within the call. It
    /// is refused, and `value` comes back, exactly when any guard is
    /// outstanding.
    pub fn replace(&mut self, value: T) -> (r: Result<T, (BorrowConflict, T)>)
        requires
            old(self).wf(),
        ensures
            final(self).wf(),
            final(self).state() == old(self).state(),
            match r {
                Ok(before) => {
                    &&& old(self).state().admits_exclusive()
                    &&& before == old(self).value()
                    &&& final(self).value() == value
                },
                Err((_, back)) => {
                    &&& !old(self).state().admits_exclusive()
                    &&& back == value
                    &&& final(self).value() == old(self).value()
                },
            },
    {
        match self.borrow_mut() {
            Ok(guard) => {
                let mut value = value;
                std::mem::swap(self.get_mut(&guard), &mut value);
                self.release_mut(guard);
                Ok(value)
            },
            Err(conflict) => Err((conflict, value)),
        }
    }

    /// Runs `f` on the value under a shared borrow that is taken before and
    /// given back after, whatever `f` returns. It is refused, and `f` does
    /// not run, exactly when the exclusive guard is outstanding.
    pub fn with_borrow<R, F: FnOnce(&T) -> R>(&mut self, f: F) -> (r: Result<R, BorrowConflict>)
        requires
            old(self).wf(),
            old(self).state().shared() < usize::MAX,
            old(self).state().admits_shared() ==> f.requires((&old(self).value(),)),
        ensures
            final(self).wf(),
            final(self).state() == old(self).state(),
            final(self).value() == old(self).value(),
            r is Ok <==> old(self).state().admits_shared(),
            r matches Ok(out) ==> f.ensures((&old(self).value(),), out),
    {
        match self.borrow() {
            Ok(guard) => {
                let out = f(self.get(&guard));
                self.release(guard);
                Ok(out)
            },
            Err(conflict) => Err(conflict),
        }
    }

    /// Takes the cell apart; guards still outstanding are void.
    pub fn into_inner(self) -> (value: T)
        ensures
            value == self.value(),
    {
        self.value
    }

    /// The current state, for inspection.
    pub fn borrow_state(&self) -> (s: BorrowState)
        ensures
            s == self.state(),
    {
        self.state
    }

    /// Asks for a shared borrow. It is refused exactly when an exclusive
    /// guard is outstanding; a refusal changes nothing.
    pub fn borrow(&mut self) -> (r: Result<SharedGuard, BorrowConflict>)
        requires
            old(self).wf(),
            old(self).state().shared() < usize::MAX,
        ensures
            final(self).wf(),
            final(self).value() == old(self).value(),
            r is Ok <==> old(self).state().admits_shared(),
            r is Ok ==> final(self).state() == old(self).state().acquire_shared(),
            r is Err ==> final(self).state() == old(self).state(),
    {
        match self.state {
            BorrowState::Unborrowed => {
                self.state = BorrowState::SharedBorrowed(1);
                Ok(SharedGuard { token: () })
            },
            BorrowState::SharedBorrowed(n) => {
                self.state = BorrowState::SharedBorrowed(n + 1);
                Ok(SharedGuard { token: () })
            },
            BorrowState::ExclusivelyBorrowed => Err(BorrowConflict),
        }
    }

    /// Asks for the exclusive borrow. It is refused exactly when any guard is
    /// outstanding; a refusal changes nothing.
    pub fn borrow_mut(&mut self) -> (r: Result<ExclusiveGuard, BorrowConflict>)
        requires
            old(self).wf(),
        ensures
            final(self).wf(),
            final(self).value() == old(self).value(),
            r is Ok <==> old(self).state().admits_exclusive(),
            r is Ok ==> final(self).state() == old(self).state().acquire_exclusive(),
            r is Err ==> final(self).state() == old(self).state(),
    {
        match self.state {
            BorrowState::Unborrowed => {
                self.state = BorrowState::ExclusivelyBorrowed;
                Ok(ExclusiveGuard { token: () })
            },
            _ => Err(BorrowConflict),
        }
    }

    /// Gives one shared guard back.
    pub fn release(&mut self, guard: SharedGuard)
        requires
            old(self).wf(),
            old(self).state().shared() >= 1,
        ensures
            final(self).wf(),
            final(self).value() == old(self).value(),
            final(self).state() == old(self).state().release_shared(),
    {
        match self.state {
            BorrowState::SharedBorrowed(n) => {
                if n <= 1 {
                    self.state = BorrowState::Unborrowed;
                } else {
                    self.state = BorrowState::SharedBorrowed(n - 1);
                }
            },
            _ => {},
        }
    }

    /// Gives the exclusive guard back.
    pub fn release_mut(&mut self, guard: ExclusiveGuard)
        requires
            old(self).state() is ExclusivelyBorrowed,
        ensures
            final(self).wf(),
            final(self).value() == old(self).value(),
            final(self).state() == old(self).state().release_exclusive(),
    {
        self.state = BorrowState::Unborrowed;
    }

    /// Reads through a shared guard.
    pub fn get(&self, guard: &SharedGuard) -> (v: &T)
        requires
            self.state().shared() >= 1,
        ensures
            *v == self.value(),
    {
        &self.value
    }

    /// Reads through the exclusive guard.
    pub fn peek(&self, guard: &ExclusiveGuard) -> (v: &T)
        requires
            self.state() is ExclusivelyBorrowed,
        ensures
            *v == self.value(),
    {
        &self.value
    }

    /// Writes through the exclusive guard: what the caller leaves behind the
    /// returned reference is the cell's new value. The state is untouched.
    pub fn get_mut(&mut self, guard: &ExclusiveGuard) -> (v: &mut T)
        requires
            old(self).state() is ExclusivelyBorrowed,
        ensures
            *v == old(self).value(),
            final(self).value() == *final(v),
            final(self).state() == old(self).state(),
    {
        &mut self.value
    }
}

/// One thing a program can do with a cell's borrows.
pub enum CellOp {
    /// Ask for a shared borrow.
    Borrow,
    /// Ask for the exclusive borrow.
    BorrowMut,
    /// Give a shared guard back.
    Release,
    /// Give the exclusive guard back.
    ReleaseMut,
}

/// The guards of one cell that a program has in hand.
pub struct Guards {
    pub shared: nat,
    pub exclusive: nat,
}

impl Guards {
    /// A request can always be made; a guard can be given back only by a
    /// program that has one.
    pub open spec fn admits(self, op: CellOp) -> bool {
        match op {
            CellOp::Borrow => self.shared < usize::MAX,
            CellOp::BorrowMut => true,
            CellOp::Release => self.shared > 0,
            CellOp::ReleaseMut => self.exclusive > 0,
        }
    }

    /// The guards in hand after `op`; `granted` says whether a request was
    /// met.
    pub open spec fn after(self, op: CellOp, granted: bool) -> Guards {
        match op {
            CellOp::Borrow => if granted {
                Guards { shared: self.shared + 1, ..self }
            } else {
                self
            },
            CellOp::BorrowMut => if granted {
                Guards { exclusive: self.exclusive + 1, ..self }
            } else {
                self
            },
            CellOp::Release => Guards { shared: (self.shared - 1) as nat, ..self },
            CellOp::ReleaseMut => Guards { exclusive: (self.exclusive - 1) as nat, ..self },
        }
    }
}

impl BorrowState {
    /// Whether the cell meets `op`. Giving a guard back is always met.
    pub open spec fn grants(self, op: CellOp) -> bool {
        match op {
            CellOp::Borrow => self.admits_shared(),
            CellOp::BorrowMut => self.admits_exclusive(),
            _ => true,
        }
    }

    /// The state after `op`. A refused request leaves it as it was.
    pub open spec fn apply(self, op: CellOp) -> BorrowState {
        if !self.grants(op) {
            self
        } else {
            match op {
                CellOp::Borrow => self.acquire_shared(),
                CellOp::BorrowMut => self.acquire_exclusive(),
                CellOp::Release => self.release_shared(),
                CellOp::ReleaseMut => self.release_exclusive(),
            }
        }
    }

    /// The state after the operations `ops`, in order.
    pub open spec fn run(self, ops: Seq<CellOp>) -> BorrowState
        decreases ops.len(),
    {
        if ops.len() == 0 {
            self
        } else {
            self.run(ops.drop_last()).apply(ops.last())
        }
    }

    /// The guards that a program starting with `held` has in hand after
    /// `ops`.
    pub open spec fn held_after(self, held: Guards, ops: Seq<CellOp>) -> Guards
        decreases ops.len(),
    {
        if ops.len() == 0 {
            held
        } else {
            self.held_after(held, ops.drop_last()).after(ops.last(), self.run(ops.drop_last()).grants(ops.last()))
        }
    }

    /// Every guard that `ops` gives back is one that the program has at that
    /// moment.
    pub open spec fn admissible(self, held: Guards, ops: Seq<CellOp>) -> bool
        decreases ops.len(),
    {
        ops.len() > 0 ==> {
            &&& self.admissible(held, ops.drop_last())
            &&& self.held_after(held, ops.drop_last()).admits(ops.last())
        }
    }
}

/// While any guard is outstanding, a request for the exclusive borrow is
/// refused and changes nothing.
pub proof fn lemma_nested_exclusive_conflicts(state: BorrowState)
    requires
        state.wf(),
        state.shared() > 0 || state.exclusive() > 0,
    ensures
        !state.grants(CellOp::BorrowMut),
        state.apply(CellOp::BorrowMut) == state,
{
}

/// While the exclusive guard is outstanding, a request for a shared borrow
/// is refused and changes nothing.
pub proof fn lemma_shared_under_exclusive_conflicts(state: BorrowState)
    requires
        state.exclusive() > 0,
    ensures
        !state.grants(CellOp::Borrow),
        state.apply(CellOp::Borrow) == state,
{
}

/// Shared borrows never conflict with each other: with no exclusive guard
/// outstanding a request for one is met, however many are out already.
pub proof fn lemma_shared_borrows_coexist(state: BorrowState)
    requires
        state.wf(),
        state.exclusive() == 0,
        state.shared() < usize::MAX,
    ensures
        state.grants(CellOp::Borrow),
        state.apply(CellOp::Borrow).shared() == state.shared() + 1,
        state.apply(CellOp::Borrow).exclusive() == 0,
{
}

/// The state is a count of the guards in hand: after any sequence of
/// requests and returns, each return of a guard that the program has, the
/// cell records exactly the guards outstanding. So at every moment at most
/// one exclusive guard exists, and none beside a shared one.
pub proof fn lemma_state_counts_guards(state: BorrowState, held: Guards, ops: Seq<CellOp>)
    requires
        state.wf(),
        state.shared() == held.shared,
        state.exclusive() == held.exclusive,
        state.admissible(held, ops),
    ensures
        state.run(ops).wf(),
        state.run(ops).shared() == state.held_after(held, ops).shared,
        state.run(ops).exclusive() == state.held_after(held, ops).exclusive,
        state.held_after(held, ops).exclusive <= 1,
        state.held_after(held, ops).exclusive == 1 ==> state.held_after(held, ops).shared == 0,
    decreases ops.len(),
{
    if ops.len() > 0 {
        lemma_state_counts_guards(state, held, ops.drop_last());
    }
}

} // verus!
