//! A cell in the store: a value that every holder of a handle can reach
//! and, under the cell's rule, change.
//!
//! A handle lends what it names only for reading. What is to change behind
//! handles sits in a cell, and the borrow is asked of the handle and the
//! store together.

use crate::cell::{BorrowConflict, BorrowState, ExclusiveGuard, MutCell, SharedGuard};
use crate::heap::{Heap, Ledger, RefCounted};
use vstd::prelude::*;

verus! {

/// `after` is `before`, but that the cell in allocation `id` holds `value`
/// and is lent out as `state` says. No count and no other allocation
/// differs.
pub open spec fn cell_is<T>(
    before: Ledger<MutCell<T>>,
    after: Ledger<MutCell<T>>,
    id: int,
    value: T,
    state: BorrowState,
) -> bool {
    &&& forall|x: int| #[trigger] after.holds(x) <==> before.holds(x)
    &&& forall|x: int| x != id && before.holds(x) ==> #[trigger] after.entries[x] == before.entries[x]
    &&& after.strong(id) == before.strong(id)
    &&& after.weak(id) == before.weak(id)
    &&& after.live(id)
    &&& after.value(id).value() == value
    &&& after.value(id).state() == state
}

impl<T> RefCounted<MutCell<T>> {
    /// The cell that the handle names.
    pub open spec fn cell(&self, heap: &Heap<MutCell<T>>) -> MutCell<T> {
        heap@.value(self.id())
    }

    /// The handle names a live cell in a valid store.
    pub open spec fn names_cell(&self, heap: &Heap<MutCell<T>>) -> bool {
        &&& heap.wf()
        &&& heap@.live(self.id())
        &&& self.cell(heap).wf()
    }

    /// Asks the cell behind the handle for a shared borrow. It is refused
    /// exactly when an exclusive guard is outstanding; a refusal changes
    /// nothing.
    pub fn borrow(&self, heap: &mut Heap<MutCell<T>>) -> (r: Result<SharedGuard, BorrowConflict>)
        requires
            self.names_cell(old(heap)),
            self.cell(old(heap)).state().shared() < usize::MAX,
        ensures
            self.names_cell(final(heap)),
            r is Ok <==> self.cell(old(heap)).state().admits_shared(),
            cell_is(
                old(heap)@,
                final(heap)@,
                self.id(),
                self.cell(old(heap)).value(),
                if r is Ok {
                    self.cell(old(heap)).state().acquire_shared()
                } else {
                    self.cell(old(heap)).state()
                },
            ),
    {
        heap.slot_value_mut(self.slot()).borrow()
    }

    /// Asks the cell behind the handle for the exclusive borrow. It is
    /// refused exactly when any guard is outstanding; a refusal changes
    /// nothing.
    pub fn borrow_mut(&self, heap: &mut Heap<MutCell<T>>) -> (r: Result<ExclusiveGuard, BorrowConflict>)
        requires
            self.names_cell(old(heap)),
        ensures
            self.names_cell(final(heap)),
            r is Ok <==> self.cell(old(heap)).state().admits_exclusive(),
            cell_is(
                old(heap)@,
                final(heap)@,
                self.id(),
                self.cell(old(heap)).value(),
                if r is Ok {
                    self.cell(old(heap)).state().acquire_exclusive()
                } else {
                    self.cell(old(heap)).state()
                },
            ),
    {
        heap.slot_value_mut(self.slot()).borrow_mut()
    }

    /// Gives a shared guard of the cell back.
    pub fn end_borrow(&self, heap: &mut Heap<MutCell<T>>, guard: SharedGuard)
        requires
            self.names_cell(old(heap)),
            self.cell(old(heap)).state().shared() >= 1,
        ensures
            self.names_cell(final(heap)),
            cell_is(
                old(heap)@,
                final(heap)@,
                self.id(),
                self.cell(old(heap)).value(),
                self.cell(old(heap)).state().release_shared(),
            ),
    {
        heap.slot_value_mut(self.slot()).release(guard);
    }

    /// Gives the exclusive guard of the cell back.
    pub fn end_borrow_mut(&self, heap: &mut Heap<MutCell<T>>, guard: ExclusiveGuard)
        requires
            self.names_cell(old(heap)),
            self.cell(old(heap)).state() is ExclusivelyBorrowed,
        ensures
            self.names_cell(final(heap)),
            cell_is(
                old(heap)@,
                final(heap)@,
                self.id(),
                self.cell(old(heap)).value(),
                self.cell(old(heap)).state().release_exclusive(),
            ),
    {
        heap.slot_value_mut(self.slot()).release_mut(guard);
    }

    /// Reads the value in the cell through a shared guard.
    pub fn read<'a>(&self, heap: &'a Heap<MutCell<T>>, guard: &SharedGuard) -> (v: &'a T)
        requires
            self.names_cell(heap),
            self.cell(heap).state().shared() >= 1,
        ensures
            *v == self.cell(heap).value(),
    {
        self.get(heap).get(guard)
    }

    /// Writes to the value in the cell through the exclusive guard: what
    /// the caller leaves behind the returned reference is the cell's new
    /// value.
    pub fn write<'a>(&self, heap: &'a mut Heap<MutCell<T>>, guard: &ExclusiveGuard) -> (v: &'a mut T)
        requires
            self.names_cell(old(heap)),
            self.cell(old(heap)).state() is ExclusivelyBorrowed,
        ensures
            *v == self.cell(old(heap)).value(),
            self.names_cell(final(heap)),
            cell_is(old(heap)@, final(heap)@, self.id(), *final(v), self.cell(old(heap)).state()),
    {
        heap.slot_value_mut(self.slot()).get_mut(guard)
    }
}

} // verus!
