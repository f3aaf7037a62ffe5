//! A store of reference-counted allocations.
//!
//! Every allocation carries two counts. Strong handles keep the value alive;
//! weak handles only keep the allocation's record. The value is taken out
//! when the last strong handle goes, the record when no handle of either
//! kind is left. Handles are plain tokens: they are not `Clone`, so the only
//! way to make or unmake one is an operation that adjusts the counts.

use std::marker::PhantomData;
use vstd::prelude::*;

verus! {

/// What the store records for one allocation.
pub struct Entry<T> {
    /// The value, present exactly while a strong handle is left.
    pub value: Option<T>,
    /// Number of strong handles.
    pub strong: nat,
    /// Number of weak handles.
    pub weak: nat,
}

/// The store as a mathematical object: the records of the allocations that
/// still have a handle, by identity.
#[verifier::ext_equal]
pub struct Ledger<T> {
    pub entries: Map<int, Entry<T>>,
}

impl<T> Ledger<T> {
    /// The ledger with no allocation.
    pub open spec fn empty() -> Ledger<T> {
        Ledger { entries: Map::empty() }
    }

    /// Some handle to `id` is left.
    pub open spec fn holds(self, id: int) -> bool {
        self.entries.dom().contains(id)
    }

    /// Strong count of `id`; zero for an allocation that is gone.
    pub open spec fn strong(self, id: int) -> nat {
        if self.holds(id) {
            self.entries[id].strong
        } else {
            0
        }
    }

    /// Weak count of `id`; zero for an allocation that is gone.
    pub open spec fn weak(self, id: int) -> nat {
        if self.holds(id) {
            self.entries[id].weak
        } else {
            0
        }
    }

    /// The value of `id` can be read.
    pub open spec fn live(self, id: int) -> bool {
        self.strong(id) > 0
    }

    /// The value of a live allocation.
    pub open spec fn value(self, id: int) -> T
        recommends
            self.live(id),
    {
        self.entries[id].value->0
    }

    /// Every record has a handle, and holds its value exactly while it has a
    /// strong one.
    pub open spec fn wf(self) -> bool {
        forall|id: int| #[trigger]
            self.holds(id) ==> {
                let e = self.entries[id];
                &&& e.strong > 0 || e.weak > 0
                &&& e.value is Some <==> e.strong > 0
            }
    }

    /// A new allocation `id` holding `value`, with its first strong handle.
    pub open spec fn allocate(self, id: int, value: T) -> Ledger<T> {
        Ledger { entries: self.entries.insert(id, Entry { value: Some(value), strong: 1, weak: 0 }) }
    }

    /// One more strong handle to `id`.
    pub open spec fn retain(self, id: int) -> Ledger<T> {
        let e = self.entries[id];
        Ledger { entries: self.entries.insert(id, Entry { strong: e.strong + 1, ..e }) }
    }

    /// One more weak handle to `id`.
    pub open spec fn observe(self, id: int) -> Ledger<T> {
        let e = self.entries[id];
        Ledger { entries: self.entries.insert(id, Entry { weak: e.weak + 1, ..e }) }
    }

    /// One strong handle to `id` fewer. With the last one the value leaves;
    /// the record stays only while a weak handle is left.
    pub open spec fn release(self, id: int) -> Ledger<T> {
        let e = self.entries[id];
        if e.strong > 1 {
            Ledger { entries: self.entries.insert(id, Entry { strong: (e.strong - 1) as nat, ..e }) }
        } else if e.weak > 0 {
            Ledger { entries: self.entries.insert(id, Entry { value: None, strong: 0, weak: e.weak }) }
        } else {
            Ledger { entries: self.entries.remove(id) }
        }
    }

    /// One weak handle to `id` fewer. The record goes with the last handle of
    /// either kind.
    pub open spec fn forget(self, id: int) -> Ledger<T> {
        let e = self.entries[id];
        if e.weak > 1 || e.strong > 0 {
            Ledger { entries: self.entries.insert(id, Entry { weak: (e.weak - 1) as nat, ..e }) }
        } else {
            Ledger { entries: self.entries.remove(id) }
        }
    }

    /// The value of the live allocation `id` replaced by `value`.
    pub open spec fn store(self, id: int, value: T) -> Ledger<T> {
        let e = self.entries[id];
        Ledger { entries: self.entries.insert(id, Entry { value: Some(value), ..e }) }
    }
}

struct Slot<T> {
    value: Option<T>,
    strong: usize,
    weak: usize,
}

/// The store. Slots whose record is gone are kept on a free list and used
/// again by later allocations.
pub struct Heap<T> {
    slots: Vec<Slot<T>>,
    free: Vec<usize>,
}

/// A strong handle: while it exists, the value it names can be read.
pub struct RefCounted<T> {
    slot: usize,
    marker: PhantomData<T>,
}

/// A weak handle: it names an allocation without keeping its value alive.
/// The empty weak handle names nothing.
pub struct WeakRef<T> {
    slot: Option<usize>,
    marker: PhantomData<T>,
}

impl<T> View for Heap<T> {
    type V = Ledger<T>;

    closed spec fn view(&self) -> Ledger<T> {
        Ledger {
            entries: Map::new(
                |i: int| 0 <= i < self.slots.len() && (self.slots[i].strong > 0 || self.slots[i].weak > 0),
                |i: int|
                    Entry {
                        value: self.slots[i].value,
                        strong: self.slots[i].strong as nat,
                        weak: self.slots[i].weak as nat,
                    },
            ),
        }
    }
}

impl<T> Heap<T> {
    /// The representation is sound: values sit exactly in the slots with a
    /// strong count, and the free list names the vacant slots, all of them
    /// and each once.
    pub closed spec fn inv(&self) -> bool {
        &&& forall|i: int|
            0 <= i < self.slots.len() ==> ((#[trigger] self.slots[i]).value is Some <==> self.slots[i].strong
                > 0)
        &&& forall|j: int|
            0 <= j < self.free.len() ==> {
                &&& (#[trigger] self.free[j]) < self.slots.len()
                &&& self.slots[self.free[j] as int].strong == 0
                &&& self.slots[self.free[j] as int].weak == 0
            }
        &&& forall|j: int, k: int| 0 <= j < k < self.free.len() ==> self.free[j] != self.free[k]
        &&& forall|i: int|
            0 <= i < self.slots.len() && (#[trigger] self.slots[i]).strong == 0 && self.slots[i].weak == 0
                ==> self.free@.contains(i as usize)
    }

    /// Number of slots that the store has ever made.
    pub closed spec fn slot_count(&self) -> nat {
        self.slots.len() as nat
    }

    /// Number of slots that are vacant: their record is gone, and the next
    /// allocations use them again.
    pub closed spec fn vacant_count(&self) -> nat {
        self.free.len() as nat
    }

    /// Validity of the store.
    pub open spec fn wf(&self) -> bool {
        &&& self.inv()
        &&& self@.wf()
        &&& forall|id: int| #[trigger]
            self@.holds(id) ==> self@.entries[id].strong <= usize::MAX && self@.entries[id].weak <= usize::MAX
    }

    /// A store with no allocation.
    pub fn new() -> (heap: Heap<T>)
        ensures
            heap.wf(),
            heap@ == Ledger::<T>::empty(),
            heap.slot_count() == 0,
            heap.vacant_count() == 0,
    {
        let heap = Heap { slots: Vec::new(), free: Vec::new() };
        heap
    }

    /// Number of slots that the store has ever made.
    pub fn slots(&self) -> (n: usize)
        ensures
            n == self.slot_count(),
    {
        self.slots.len()
    }

    /// Number of vacant slots.
    pub fn vacant(&self) -> (n: usize)
        ensures
            n == self.vacant_count(),
    {
        self.free.len()
    }

    /// Write access to the live value in slot `i`, for the structures of
    /// this crate, which keep what they change behind a cell.
    pub(crate) fn slot_value_mut<'a>(&'a mut self, i: usize) -> (v: &'a mut T)
        requires
            old(self).wf(),
            old(self)@.live(i as int),
        ensures
            *v == old(self)@.value(i as int),
            final(self).wf(),
            final(self)@ =~= old(self)@.store(i as int, *final(v)),
            final(self).slot_count() == old(self).slot_count(),
            final(self).vacant_count() == old(self).vacant_count(),
    {
        self.slots[i].value.as_mut().unwrap()
    }

    /// Read access to the live value in slot `i`.
    pub(crate) fn slot_value<'a>(&'a self, i: usize) -> (v: &'a T)
        requires
            self.wf(),
            self@.live(i as int),
        ensures
            *v == self@.value(i as int),
    {
        self.slots[i].value.as_ref().unwrap()
    }

    /// The value in slot `i` is alive.
    pub(crate) fn slot_is_live(&self, i: usize) -> (b: bool)
        requires
            self.wf(),
        ensures
            b == self@.live(i as int),
    {
        i < self.slots.len() && self.slots[i].strong > 0
    }

    /// A further strong handle to the live allocation in slot `i`. The
    /// structures of this crate use it to copy a handle that lies inside
    /// the store.
    pub(crate) fn retain_slot(&mut self, i: usize) -> (rc: RefCounted<T>)
        requires
            old(self).wf(),
            old(self)@.live(i as int),
            old(self)@.strong(i as int) < usize::MAX,
        ensures
            final(self).wf(),
            rc.id() == i,
            final(self)@ == old(self)@.retain(i as int),
            final(self).slot_count() == old(self).slot_count(),
            final(self).vacant_count() == old(self).vacant_count(),
    {
        let slot = &mut self.slots[i];
        slot.strong = slot.strong + 1;
        RefCounted { slot: i, marker: PhantomData }
    }

    /// A strong handle to the allocation in slot `i`, if its value is still
    /// alive.
    pub(crate) fn upgrade_slot(&mut self, i: usize) -> (rc: Option<RefCounted<T>>)
        requires
            old(self).wf(),
            old(self)@.strong(i as int) < usize::MAX,
        ensures
            final(self).wf(),
            rc is Some <==> old(self)@.live(i as int),
            rc matches Some(h) ==> h.id() == i && final(self)@ == old(self)@.retain(i as int),
            rc is None ==> final(self)@ == old(self)@,
            final(self).slot_count() == old(self).slot_count(),
            final(self).vacant_count() == old(self).vacant_count(),
    {
        if i < self.slots.len() && self.slots[i].strong > 0 {
            Some(self.retain_slot(i))
        } else {
            None
        }
    }
}

impl<T> RefCounted<T> {
    /// The allocation that the handle names.
    pub closed spec fn id(&self) -> int {
        self.slot as int
    }

    /// Allocates `value` and returns its first strong handle: strong count
    /// one, weak count zero. The identity is one that no handle names.
    pub fn new(heap: &mut Heap<T>, value: T) -> (rc: RefCounted<T>)
        requires
            old(heap).wf(),
        ensures
            final(heap).wf(),
            !old(heap)@.holds(rc.id()),
            final(heap)@ == old(heap)@.allocate(rc.id(), value),
            old(heap).vacant_count() > 0 ==> {
                &&& final(heap).slot_count() == old(heap).slot_count()
                &&& final(heap).vacant_count() == old(heap).vacant_count() - 1
            },
            old(heap).vacant_count() == 0 ==> {
                &&& final(heap).slot_count() == old(heap).slot_count() + 1
                &&& final(heap).vacant_count() == 0
            },
    {
        let slot = Slot { value: Some(value), strong: 1, weak: 0 };
        let ghost listed = heap.free@;
        let i = match heap.free.pop() {
            Some(i) => {
                heap.slots.set(i, slot);
                i
            },
            None => {
                heap.slots.push(slot);
                heap.slots.len() - 1
            },
        };
        proof {
            assert forall|k: int|
                0 <= k < heap.slots.len() && (#[trigger] heap.slots[k]).strong == 0 && heap.slots[k].weak
                    == 0 implies heap.free@.contains(k as usize) by {
                let j = choose|j: int| 0 <= j < listed.len() && listed[j] == k as usize;
                assert(heap.free@[j] == k as usize);
            }
        }
        RefCounted { slot: i, marker: PhantomData }
    }

    /// The slot that the handle names.
    pub(crate) fn slot(&self) -> (i: usize)
        ensures
            i == self.id(),
    {
        self.slot
    }

    /// Two handles name the same allocation.
    pub fn ptr_eq(&self, other: &RefCounted<T>) -> (same: bool)
        ensures
            same == (self.id() == other.id()),
    {
        self.slot == other.slot
    }

    /// Number of strong handles to the allocation; zero if it is gone.
    pub fn strong_count(&self, heap: &Heap<T>) -> (n: usize)
        requires
            heap.wf(),
        ensures
            n == heap@.strong(self.id()),
    {
        if self.slot < heap.slots.len() {
            heap.slots[self.slot].strong
        } else {
            0
        }
    }

    /// Number of weak handles to the allocation; zero if it is gone.
    pub fn weak_count(&self, heap: &Heap<T>) -> (n: usize)
        requires
            heap.wf(),
        ensures
            n == heap@.weak(self.id()),
    {
        if self.slot < heap.slots.len() {
            heap.slots[self.slot].weak
        } else {
            0
        }
    }

    /// Read access to the value.
    pub fn get<'a>(&self, heap: &'a Heap<T>) -> (v: &'a T)
        requires
            heap.wf(),
            heap@.live(self.id()),
        ensures
            *v == heap@.value(self.id()),
    {
        heap.slot_value(self.slot)
    }

    /// A second strong handle to the same allocation.
    pub fn clone(&self, heap: &mut Heap<T>) -> (rc: RefCounted<T>)
        requires
            old(heap).wf(),
            old(heap)@.live(self.id()),
            old(heap)@.strong(self.id()) < usize::MAX,
        ensures
            final(heap).wf(),
            rc.id() == self.id(),
            final(heap)@ == old(heap)@.retain(self.id()),
            final(heap).slot_count() == old(heap).slot_count(),
            final(heap).vacant_count() == old(heap).vacant_count(),
    {
        heap.retain_slot(self.slot)
    }

    /// A weak handle to the same allocation.
    pub fn downgrade(&self, heap: &mut Heap<T>) -> (weak: WeakRef<T>)
        requires
            old(heap).wf(),
            old(heap)@.live(self.id()),
            old(heap)@.weak(self.id()) < usize::MAX,
        ensures
            final(heap).wf(),
            weak.target() == Some(self.id()),
            final(heap)@ == old(heap)@.observe(self.id()),
            final(heap).slot_count() == old(heap).slot_count(),
            final(heap).vacant_count() == old(heap).vacant_count(),
    {
        let slot = &mut heap.slots[self.slot];
        slot.weak = slot.weak + 1;
        WeakRef { slot: Some(self.slot), marker: PhantomData }
    }

    /// Gives the handle up. The last strong handle takes the value out of
    /// the store and hands it to the caller, who then owns what it held; the
    /// record goes too unless a weak handle still names it.
    pub fn release(self, heap: &mut Heap<T>) -> (dropped: Option<T>)
        requires
            old(heap).wf(),
            old(heap)@.live(self.id()),
        ensures
            final(heap).wf(),
            final(heap)@ == old(heap)@.release(self.id()),
            dropped == if old(heap)@.strong(self.id()) == 1 {
                Some(old(heap)@.value(self.id()))
            } else {
                None
            },
            final(heap).slot_count() == old(heap).slot_count(),
            final(heap).vacant_count() == old(heap).vacant_count() + if final(heap)@.holds(self.id()) {
                0nat
            } else {
                1nat
            },
    {
        let ghost listed = heap.free@;
        let slot = &mut heap.slots[self.slot];
        slot.strong = slot.strong - 1;
        if slot.strong > 0 {
            return None;
        }
        let dropped = slot.value.take();
        if slot.weak == 0 {
            heap.free.push(self.slot);
        }
        proof {
            assert forall|k: int|
                0 <= k < heap.slots.len() && (#[trigger] heap.slots[k]).strong == 0 && heap.slots[k].weak
                    == 0 implies heap.free@.contains(k as usize) by {
                if k == self.slot {
                    assert(heap.free@[listed.len() as int] == self.slot);
                } else {
                    let j = choose|j: int| 0 <= j < listed.len() && listed[j] == k as usize;
                    assert(heap.free@[j] == k as usize);
                }
            }
        }
        dropped
    }
}

impl<T> WeakRef<T> {
    /// The allocation that the handle names, if any.
    pub closed spec fn target(&self) -> Option<int> {
        match self.slot {
            Some(i) => Some(i as int),
            None => None,
        }
    }

    /// The handle is the empty one, or is counted in the store.
    pub open spec fn valid(&self, heap: &Heap<T>) -> bool {
        self.target() matches Some(id) ==> heap@.weak(id) > 0
    }

    /// The slot that the handle names, if any.
    pub(crate) fn slot(&self) -> (i: Option<usize>)
        ensures
            match i {
                Some(i) => self.target() == Some(i as int),
                None => self.target() is None,
            },
    {
        self.slot
    }

    /// The empty weak handle. It upgrades to nothing.
    pub fn new() -> (weak: WeakRef<T>)
        ensures
            weak.target() is None,
    {
        WeakRef { slot: None, marker: PhantomData }
    }

    /// The handle names nothing.
    pub fn is_dangling(&self) -> (b: bool)
        ensures
            b == (self.target() is None),
    {
        self.slot.is_none()
    }

    /// A strong handle to the allocation, if its value is still alive. A
    /// refusal changes nothing.
    pub fn upgrade(&self, heap: &mut Heap<T>) -> (rc: Option<RefCounted<T>>)
        requires
            old(heap).wf(),
            self.target() matches Some(id) ==> old(heap)@.strong(id) < usize::MAX,
        ensures
            final(heap).wf(),
            rc is Some <==> (self.target() matches Some(id) && old(heap)@.live(id)),
            rc matches Some(h) ==> self.target() == Some(h.id()) && final(heap)@ == old(heap)@.retain(h.id()),
            rc is None ==> final(heap)@ == old(heap)@,
            final(heap).slot_count() == old(heap).slot_count(),
            final(heap).vacant_count() == old(heap).vacant_count(),
    {
        match self.slot {
            Some(i) => heap.upgrade_slot(i),
            None => None,
        }
    }

    /// A second weak handle to the same allocation.
    pub fn clone(&self, heap: &mut Heap<T>) -> (weak: WeakRef<T>)
        requires
            old(heap).wf(),
            self.valid(old(heap)),
            self.target() matches Some(id) ==> old(heap)@.weak(id) < usize::MAX,
        ensures
            final(heap).wf(),
            weak.target() == self.target(),
            final(heap)@ == match self.target() {
                Some(id) => old(heap)@.observe(id),
                None => old(heap)@,
            },
            final(heap).slot_count() == old(heap).slot_count(),
            final(heap).vacant_count() == old(heap).vacant_count(),
    {
        match self.slot {
            Some(i) => {
                let slot = &mut heap.slots[i];
                slot.weak = slot.weak + 1;
            },
            None => {},
        }
        WeakRef { slot: self.slot, marker: PhantomData }
    }

    /// Gives the handle up. The record goes with the last handle of either
    /// kind.
    pub fn release(self, heap: &mut Heap<T>)
        requires
            old(heap).wf(),
            self.valid(old(heap)),
        ensures
            final(heap).wf(),
            final(heap)@ == match self.target() {
                Some(id) => old(heap)@.forget(id),
                None => old(heap)@,
            },
            final(heap).slot_count() == old(heap).slot_count(),
            final(heap).vacant_count() == old(heap).vacant_count() + match self.target() {
                Some(id) if !final(heap)@.holds(id) => 1nat,
                _ => 0nat,
            },
    {
        let ghost listed = heap.free@;
        match self.slot {
            Some(i) => {
                let slot = &mut heap.slots[i];
                slot.weak = slot.weak - 1;
                if slot.weak == 0 && slot.strong == 0 {
                    heap.free.push(i);
                }
                proof {
                    assert forall|k: int|
                        0 <= k < heap.slots.len() && (#[trigger] heap.slots[k]).strong == 0 && heap.slots[k].weak
                            == 0 implies heap.free@.contains(k as usize) by {
                        if k == i {
                            assert(heap.free@[listed.len() as int] == i);
                        } else {
                            let j = choose|j: int| 0 <= j < listed.len() && listed[j] == k as usize;
                            assert(heap.free@[j] == k as usize);
                        }
                    }
                }
            },
            None => {},
        }
    }
}

/// One thing a program can do with a handle to an allocation.
pub enum HandleOp {
    /// Copy a strong handle.
    Clone,
    /// Give a strong handle up.
    Drop,
    /// Derive a weak handle from a strong one.
    Downgrade,
    /// Ask a weak handle for a strong one.
    Upgrade,
    /// Give a weak handle up.
    DropWeak,
}

/// The handles to one allocation that a program has in hand.
pub struct Handles {
    pub strong: nat,
    pub weak: nat,
}

impl Handles {
    /// The program has a handle of the kind that `op` acts on.
    pub open spec fn admits(self, op: HandleOp) -> bool {
        match op {
            HandleOp::Clone | HandleOp::Drop | HandleOp::Downgrade => self.strong > 0,
            HandleOp::Upgrade | HandleOp::DropWeak => self.weak > 0,
        }
    }

    /// The handles in hand after `op`; `granted` says whether an upgrade
    /// handed out a strong handle.
    pub open spec fn after(self, op: HandleOp, granted: bool) -> Handles {
        match op {
            HandleOp::Clone => Handles { strong: self.strong + 1, ..self },
            HandleOp::Drop => Handles { strong: (self.strong - 1) as nat, ..self },
            HandleOp::Downgrade => Handles { weak: self.weak + 1, ..self },
            HandleOp::Upgrade => if granted {
                Handles { strong: self.strong + 1, ..self }
            } else {
                self
            },
            HandleOp::DropWeak => Handles { weak: (self.weak - 1) as nat, ..self },
        }
    }
}

impl<T> Ledger<T> {
    /// The ledger after `op` on a handle to `id`.
    pub open spec fn apply(self, id: int, op: HandleOp) -> Ledger<T> {
        match op {
            HandleOp::Clone => self.retain(id),
            HandleOp::Drop => self.release(id),
            HandleOp::Downgrade => self.observe(id),
            HandleOp::Upgrade => if self.live(id) {
                self.retain(id)
            } else {
                self
            },
            HandleOp::DropWeak => self.forget(id),
        }
    }

    /// The ledger after the operations `ops`, in order, on handles to `id`.
    pub open spec fn run(self, id: int, ops: Seq<HandleOp>) -> Ledger<T>
        decreases ops.len(),
    {
        if ops.len() == 0 {
            self
        } else {
            self.run(id, ops.drop_last()).apply(id, ops.last())
        }
    }

    /// The handles that a program starting with `held` has in hand after
    /// `ops`.
    pub open spec fn held_after(self, id: int, held: Handles, ops: Seq<HandleOp>) -> Handles
        decreases ops.len(),
    {
        if ops.len() == 0 {
            held
        } else {
            self.held_after(id, held, ops.drop_last()).after(
                ops.last(),
                self.run(id, ops.drop_last()).live(id),
            )
        }
    }

    /// Every operation of `ops` acts on a handle that the program has at
    /// that moment.
    pub open spec fn admissible(self, id: int, held: Handles, ops: Seq<HandleOp>) -> bool
        decreases ops.len(),
    {
        ops.len() > 0 ==> {
            &&& self.admissible(id, held, ops.drop_last())
            &&& self.held_after(id, held, ops.drop_last()).admits(ops.last())
        }
    }

    /// How many operations of `ops` took the value of `id` out of the store.
    pub open spec fn teardowns(self, id: int, ops: Seq<HandleOp>) -> nat
        decreases ops.len(),
    {
        if ops.len() == 0 {
            0
        } else {
            let before = self.run(id, ops.drop_last());
            let here: nat = if ops.last() is Drop && before.strong(id) == 1 {
                1
            } else {
                0
            };
            self.teardowns(id, ops.drop_last()) + here
        }
    }
}

/// One operation on a handle that the program has keeps the ledger valid
/// and keeps both counts equal to the handles in hand.
pub proof fn lemma_step_counts_handles<T>(ledger: Ledger<T>, id: int, held: Handles, op: HandleOp)
    requires
        ledger.wf(),
        ledger.strong(id) == held.strong,
        ledger.weak(id) == held.weak,
        held.admits(op),
    ensures
        ledger.apply(id, op).wf(),
        ledger.apply(id, op).strong(id) == held.after(op, ledger.live(id)).strong,
        ledger.apply(id, op).weak(id) == held.after(op, ledger.live(id)).weak,
        ledger.apply(id, op).live(id) ==> {
            &&& ledger.live(id)
            &&& ledger.apply(id, op).value(id) == ledger.value(id)
        },
        forall|other: int|
            other != id ==> (ledger.apply(id, op).holds(other) <==> ledger.holds(other)) && (ledger.holds(
                other,
            ) ==> ledger.apply(id, op).entries[other] == ledger.entries[other]),
{
    let next = ledger.apply(id, op);
    assert forall|x: int| #[trigger] next.holds(x) implies {
        let e = next.entries[x];
        &&& e.strong > 0 || e.weak > 0
        &&& e.value is Some <==> e.strong > 0
    } by {
        assert(ledger.holds(x));
    }
}

/// Counts are handles: after any sequence of clones, drops, downgrades,
/// upgrades and weak drops, each on a handle that the program has, the
/// strong count is the number of strong handles in hand and the weak count
/// the number of weak ones. While the value lives it is the one first
/// stored. It is taken out at most once, and exactly once if the strong
/// count has reached zero.
pub proof fn lemma_counts_are_handles<T>(ledger: Ledger<T>, id: int, held: Handles, ops: Seq<HandleOp>)
    requires
        ledger.wf(),
        ledger.live(id),
        ledger.strong(id) == held.strong,
        ledger.weak(id) == held.weak,
        ledger.admissible(id, held, ops),
    ensures
        ledger.run(id, ops).wf(),
        ledger.run(id, ops).strong(id) == ledger.held_after(id, held, ops).strong,
        ledger.run(id, ops).weak(id) == ledger.held_after(id, held, ops).weak,
        ledger.run(id, ops).live(id) ==> ledger.run(id, ops).value(id) == ledger.value(id),
        ledger.teardowns(id, ops) == if ledger.run(id, ops).live(id) {
            0nat
        } else {
            1nat
        },
    decreases ops.len(),
{
    if ops.len() > 0 {
        let before = ledger.run(id, ops.drop_last());
        lemma_counts_are_handles(ledger, id, held, ops.drop_last());
        lemma_step_counts_handles(before, id, ledger.held_after(id, held, ops.drop_last()), ops.last());
    }
}

/// From the first handle on: whatever a program does with the handle
/// that an allocation returned and with those derived from it, the counts
/// of the allocation are the handles that the program has.
pub proof fn lemma_counts_from_allocation<T>(ledger: Ledger<T>, id: int, value: T, ops: Seq<HandleOp>)
    requires
        ledger.wf(),
        !ledger.holds(id),
        ledger.allocate(id, value).admissible(id, Handles { strong: 1, weak: 0 }, ops),
    ensures
        ({
            let first = ledger.allocate(id, value);
            let held = first.held_after(id, Handles { strong: 1, weak: 0 }, ops);
            &&& first.run(id, ops).wf()
            &&& first.run(id, ops).strong(id) == held.strong
            &&& first.run(id, ops).weak(id) == held.weak
            &&& first.run(id, ops).live(id) ==> first.run(id, ops).value(id) == value
            &&& first.teardowns(id, ops) == if held.strong > 0 {
                0nat
            } else {
                1nat
            }
        }),
{
    let first = ledger.allocate(id, value);
    assert forall|x: int| #[trigger] first.holds(x) implies {
        let e = first.entries[x];
        &&& e.strong > 0 || e.weak > 0
        &&& e.value is Some <==> e.strong > 0
    } by {
        if x != id {
            assert(ledger.holds(x));
        }
    }
    lemma_counts_are_handles(first, id, Handles { strong: 1, weak: 0 }, ops);
}

/// Dead stays dead: once the strong count is zero, no sequence of
/// operations on handles that the program has brings the value back. Each
/// upgrade along the way is refused and leaves the ledger as it was.
pub proof fn lemma_dead_stays_dead<T>(ledger: Ledger<T>, id: int, held: Handles, ops: Seq<HandleOp>)
    requires
        ledger.wf(),
        !ledger.live(id),
        held.strong == 0,
        ledger.weak(id) == held.weak,
        ledger.admissible(id, held, ops),
    ensures
        ledger.run(id, ops).wf(),
        !ledger.run(id, ops).live(id),
        ledger.held_after(id, held, ops).strong == 0,
        ledger.run(id, ops).weak(id) == ledger.held_after(id, held, ops).weak,
        ledger.run(id, ops).apply(id, HandleOp::Upgrade) == ledger.run(id, ops),
        ledger.teardowns(id, ops) == 0,
    decreases ops.len(),
{
    if ops.len() > 0 {
        let before = ledger.run(id, ops.drop_last());
        lemma_dead_stays_dead(ledger, id, held, ops.drop_last());
        lemma_step_counts_handles(before, id, ledger.held_after(id, held, ops.drop_last()), ops.last());
    }
}

} // verus!
