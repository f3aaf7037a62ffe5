//! A persistent singly linked list whose tails are shared.
//!
//! Pushing onto a list makes a new front node that points at the old list
//! and leaves the old list as it was, so any number of lists can share one
//! suffix. Nodes live in an arena of reference-counted allocations; a node
//! is reclaimed when neither a list handle nor another node points at it.

use crate::heap::{Heap, RefCounted};
use vstd::prelude::*;

verus! {

/// What the arena records for one node.
pub struct NodeView<T> {
    /// `None` for the empty list, else the first value and the node that
    /// holds the rest.
    pub item: Option<(T, int)>,
    /// Number of list handles that name this node.
    pub handles: nat,
    /// The nodes whose rest is this node.
    pub referrers: Set<int>,
    /// Number of values in the list that starts here.
    pub len: nat,
}

/// The arena as a mathematical object: its nodes by identity.
#[verifier::ext_equal]
pub struct Lists<T> {
    pub nodes: Map<int, NodeView<T>>,
}

impl<T> Lists<T> {
    /// The arena with no node.
    pub open spec fn empty() -> Lists<T> {
        Lists { nodes: Map::empty() }
    }

    /// The node `id` exists.
    pub open spec fn holds(self, id: int) -> bool {
        self.nodes.dom().contains(id)
    }

    /// Number of list handles that name `id`.
    pub open spec fn handles(self, id: int) -> nat {
        if self.holds(id) {
            self.nodes[id].handles
        } else {
            0
        }
    }

    /// Strong count of `id`: its list handles and the nodes that point at it.
    pub open spec fn strong(self, id: int) -> nat {
        if self.holds(id) {
            self.nodes[id].handles + self.nodes[id].referrers.len()
        } else {
            0
        }
    }

    /// Number of values in the list that starts at `id`.
    pub open spec fn len(self, id: int) -> nat {
        if self.holds(id) {
            self.nodes[id].len
        } else {
            0
        }
    }

    /// The node that holds the rest of the list at `id`.
    pub open spec fn tail(self, id: int) -> Option<int> {
        if self.holds(id) {
            match self.nodes[id].item {
                Some((_, t)) => Some(t),
                None => None,
            }
        } else {
            None
        }
    }

    /// The values of the list that starts at `id`, front first.
    pub open spec fn contents(self, id: int) -> Seq<T>
        decreases self.len(id),
    {
        if self.holds(id) {
            match self.nodes[id].item {
                Some((v, t)) => if self.holds(t) && self.len(t) < self.len(id) {
                    seq![v] + self.contents(t)
                } else {
                    seq![v]
                },
                None => Seq::empty(),
            }
        } else {
            Seq::empty()
        }
    }

    /// The node `id` is pointed at, and its rest exists and is one shorter.
    pub open spec fn node_wf(self, id: int) -> bool {
        let n = self.nodes[id];
        &&& n.referrers.finite()
        &&& n.handles + n.referrers.len() > 0
        &&& match n.item {
            Some((_, t)) => self.holds(t) && n.len == self.nodes[t].len + 1,
            None => n.len == 0,
        }
    }

    /// Every node is well formed, and the referrers of a node are exactly
    /// the nodes whose rest it is. Lengths decrease along the links, so no
    /// list runs into a cycle.
    pub open spec fn wf(self) -> bool {
        &&& forall|id: int| #[trigger] self.holds(id) ==> self.node_wf(id)
        &&& forall|id: int, r: int|
            self.holds(id) ==> (#[trigger] self.nodes[id].referrers.contains(r) <==> self.tail(r) == Some(id))
    }

    /// A new empty list at `id`, with its first handle.
    pub open spec fn with_empty(self, id: int) -> Lists<T> {
        Lists { nodes: self.nodes.insert(id, NodeView { item: None, handles: 1, referrers: Set::empty(), len: 0 }) }
    }

    /// A new node `id` that holds `value` in front of the list at `list`,
    /// with its first handle.
    pub open spec fn with_front(self, list: int, id: int, value: T) -> Lists<T> {
        let rest = self.nodes[list];
        Lists {
            nodes: self.nodes.insert(list, NodeView { referrers: rest.referrers.insert(id), ..rest }).insert(
                id,
                NodeView { item: Some((value, list)), handles: 1, referrers: Set::empty(), len: rest.len + 1 },
            ),
        }
    }

    /// One more handle to the list at `id`.
    pub open spec fn share(self, id: int) -> Lists<T> {
        let n = self.nodes[id];
        Lists { nodes: self.nodes.insert(id, NodeView { handles: n.handles + 1, ..n }) }
    }

    /// The node `id` taken away; the link that it held to its rest is now a
    /// handle in the hand of whoever took it.
    pub open spec fn unlink(self, id: int) -> Lists<T> {
        match self.tail(id) {
            Some(t) => {
                let rest = self.nodes[t];
                Lists {
                    nodes: self.nodes.remove(id).insert(
                        t,
                        NodeView { handles: rest.handles + 1, referrers: rest.referrers.remove(id), ..rest },
                    ),
                }
            },
            None => Lists { nodes: self.nodes.remove(id) },
        }
    }

    /// One handle to the list at `id` given up. A node that nothing points
    /// at any more goes, and with it the link to its rest, and so on down
    /// the list until a node is reached that something else still holds.
    pub open spec fn release(self, id: int) -> Lists<T>
        decreases self.len(id),
    {
        if !self.holds(id) {
            self
        } else if self.strong(id) > 1 {
            let n = self.nodes[id];
            Lists { nodes: self.nodes.insert(id, NodeView { handles: (n.handles - 1) as nat, ..n }) }
        } else {
            match self.tail(id) {
                Some(t) => if self.unlink(id).len(t) < self.len(id) {
                    self.unlink(id).release(t)
                } else {
                    self.unlink(id)
                },
                None => self.unlink(id),
            }
        }
    }

    /// What `to` records of the nodes of `self` is what `self` records:
    /// every node is still there with its value, its rest and its length.
    pub open spec fn kept_in(self, to: Lists<T>) -> bool {
        forall|x: int| #[trigger]
            self.holds(x) ==> to.holds(x) && to.nodes[x].item == self.nodes[x].item && to.nodes[x].len
                == self.nodes[x].len
    }
}

/// A list reads the same in any arena that kept its nodes.
pub proof fn lemma_contents_kept<T>(from: Lists<T>, to: Lists<T>, id: int)
    requires
        from.wf(),
        from.kept_in(to),
        from.holds(id),
    ensures
        to.contents(id) == from.contents(id),
    decreases from.len(id),
{
    match from.nodes[id].item {
        Some((v, t)) => {
            lemma_contents_kept(from, to, t);
        },
        None => {},
    }
}

/// A new empty list keeps the arena valid, reads as empty, and leaves
/// every other list as it was.
pub proof fn lemma_with_empty<T>(lists: Lists<T>, id: int)
    requires
        lists.wf(),
        !lists.holds(id),
    ensures
        lists.with_empty(id).wf(),
        lists.with_empty(id).contents(id) == Seq::<T>::empty(),
        lists.kept_in(lists.with_empty(id)),
{
    let next = lists.with_empty(id);
    assert forall|x: int| #[trigger] next.holds(x) implies next.node_wf(x) by {
        if x != id {
            assert(lists.holds(x));
        }
    }
}

/// Pushing is persistent: the new list reads as the value followed by the
/// old list, and the old list, like every other, reads as before.
pub proof fn lemma_with_front<T>(lists: Lists<T>, list: int, id: int, value: T)
    requires
        lists.wf(),
        lists.holds(list),
        !lists.holds(id),
    ensures
        lists.with_front(list, id, value).wf(),
        lists.kept_in(lists.with_front(list, id, value)),
        lists.with_front(list, id, value).contents(id) == seq![value] + lists.contents(list),
        lists.with_front(list, id, value).contents(list) == lists.contents(list),
{
    let next = lists.with_front(list, id, value);
    assert forall|x: int| #[trigger] next.holds(x) implies next.node_wf(x) by {
        if x != id {
            assert(lists.holds(x));
        }
    }
    lemma_contents_kept(lists, next, list);
}

/// Two pushes onto one list share it: whatever the two fronts are, both
/// new lists read the same after their first value, namely as the list
/// that was pushed onto, which itself reads as before.
pub proof fn lemma_fronts_share_suffix<T>(lists: Lists<T>, list: int, a: int, x: T, b: int, y: T)
    requires
        lists.wf(),
        lists.holds(list),
        !lists.holds(a),
        !lists.holds(b),
        a != b,
    ensures
        ({
            let both = lists.with_front(list, a, x).with_front(list, b, y);
            &&& both.wf()
            &&& both.contents(a) == seq![x] + lists.contents(list)
            &&& both.contents(b) == seq![y] + lists.contents(list)
            &&& both.contents(a).skip(1) == both.contents(b).skip(1)
            &&& both.contents(list) == lists.contents(list)
        }),
{
    let one = lists.with_front(list, a, x);
    let both = one.with_front(list, b, y);
    lemma_with_front(lists, list, a, x);
    lemma_with_front(one, list, b, y);
}

/// One more handle changes no list.
pub proof fn lemma_share<T>(lists: Lists<T>, id: int)
    requires
        lists.wf(),
        lists.holds(id),
    ensures
        lists.share(id).wf(),
        lists.kept_in(lists.share(id)),
        lists.share(id).contents(id) == lists.contents(id),
{
    let next = lists.share(id);
    assert forall|x: int| #[trigger] next.holds(x) implies next.node_wf(x) by {
        assert(lists.holds(x));
    }
    lemma_contents_kept(lists, next, id);
}

/// Taking away a node that only one handle holds keeps the arena valid.
/// Nothing else is lost; the rest of the list gains the handle that was the
/// node's link, and keeps its strong count.
pub proof fn lemma_unlink<T>(lists: Lists<T>, id: int)
    requires
        lists.wf(),
        lists.handles(id) == 1,
        lists.strong(id) == 1,
    ensures
        lists.unlink(id).wf(),
        lists.unlink(id).kept_in(lists),
        forall|x: int| lists.unlink(id).holds(x) <==> lists.holds(x) && x != id,
        forall|x: int|
            x != id ==> #[trigger] lists.unlink(id).handles(x) == lists.handles(x) + if lists.tail(id) == Some(x) {
                1nat
            } else {
                0nat
            },
        lists.tail(id) matches Some(t) ==> lists.unlink(id).strong(t) == lists.strong(t) && lists.unlink(id).len(t)
            < lists.len(id),
{
    let next = lists.unlink(id);
    assert forall|r: int| lists.tail(r) != Some(id) by {
        assert(lists.nodes[id].referrers.contains(r) <==> lists.tail(r) == Some(id));
    }
    match lists.tail(id) {
        Some(t) => {
            assert forall|x: int| #[trigger] next.holds(x) implies next.node_wf(x) by {
                assert(lists.tail(x) != Some(id));
            }
        },
        None => {
            assert forall|x: int| #[trigger] next.holds(x) implies next.node_wf(x) by {
                assert(lists.tail(x) != Some(id));
            }
        },
    }
}

/// Giving a handle up keeps the arena valid and takes nothing from any
/// other handle: the handle counts are as before but for the one given
/// up, so a list that a handle still names is still there, and every list
/// that is still there reads as before.
pub proof fn lemma_release<T>(lists: Lists<T>, id: int)
    requires
        lists.wf(),
        lists.handles(id) >= 1,
    ensures
        lists.release(id).wf(),
        lists.release(id).kept_in(lists),
        forall|x: int| #[trigger]
            lists.release(id).handles(x) == if x == id {
                (lists.handles(x) - 1) as nat
            } else {
                lists.handles(x)
            },
        forall|x: int| #[trigger] lists.release(id).holds(x) ==> lists.release(id).contents(x) == lists.contents(x),
        lists.release(id).holds(id) <==> lists.strong(id) > 1,
    decreases lists.len(id),
{
    let after = lists.release(id);
    if lists.strong(id) > 1 {
        assert forall|x: int| #[trigger] after.holds(x) implies after.node_wf(x) by {
            assert(lists.holds(x));
        }
    } else {
        lemma_unlink(lists, id);
        let mid = lists.unlink(id);
        match lists.tail(id) {
            Some(t) => {
                lemma_release(mid, t);
            },
            None => {
            },
        }
    }
    assert forall|x: int| #[trigger] after.holds(x) implies after.contents(x) == lists.contents(x) by {
        lemma_contents_kept(after, lists, x);
    }
}

enum ListNode<T> {
    Empty,
    Cons(T, RefCounted<ListNode<T>>),
}

impl<T> ListNode<T> {
    spec fn item(self) -> Option<(T, int)> {
        match self {
            ListNode::Empty => None,
            ListNode::Cons(v, rest) => Some((v, rest.id())),
        }
    }
}

/// The arena in which lists keep their nodes.
pub struct ListArena<T> {
    heap: Heap<ListNode<T>>,
    lists: Ghost<Lists<T>>,
}

/// A handle to a list: to its front node, or to the empty node.
pub struct SharedList<T> {
    head: RefCounted<ListNode<T>>,
}

/// A position in a list, from which the rest is read value by value. It
/// borrows the list and counts for nothing in the arena.
pub struct Cursor<'a, T> {
    at: &'a RefCounted<ListNode<T>>,
}

impl<T> View for ListArena<T> {
    type V = Lists<T>;

    closed spec fn view(&self) -> Lists<T> {
        self.lists@
    }
}

impl<T> ListArena<T> {
    /// The store holds exactly the recorded nodes, each with the recorded
    /// strong count, no weak handle, and the recorded value and link.
    pub closed spec fn inv(&self) -> bool {
        &&& self.heap.wf()
        &&& forall|id: int| self.heap@.holds(id) <==> #[trigger] self@.holds(id)
        &&& forall|id: int| #[trigger]
            self@.holds(id) ==> {
                let e = self.heap@.entries[id];
                &&& e.weak == 0
                &&& e.strong == self@.strong(id)
                &&& e.value matches Some(node) && node.item() == self@.nodes[id].item
            }
    }

    /// Validity of the arena.
    pub open spec fn wf(&self) -> bool {
        &&& self.inv()
        &&& self@.wf()
    }

    /// An arena with no node.
    pub fn new() -> (arena: ListArena<T>)
        ensures
            arena.wf(),
            arena@ == Lists::<T>::empty(),
    {
        ListArena { heap: Heap::new(), lists: Ghost(Lists::empty()) }
    }
}

impl<T> SharedList<T> {
    /// The node that the handle names.
    pub closed spec fn id(&self) -> int {
        self.head.id()
    }

    /// The handle is counted in `arena`.
    pub open spec fn held_in(&self, arena: &ListArena<T>) -> bool {
        arena@.handles(self.id()) >= 1
    }

    /// The empty list, in a node of its own.
    pub fn empty(arena: &mut ListArena<T>) -> (list: SharedList<T>)
        requires
            old(arena).wf(),
        ensures
            final(arena).wf(),
            !old(arena)@.holds(list.id()),
            final(arena)@ == old(arena)@.with_empty(list.id()),
            final(arena)@.contents(list.id()) == Seq::<T>::empty(),
            forall|x: int| #[trigger]
                old(arena)@.holds(x) ==> final(arena)@.contents(x) == old(arena)@.contents(x),
    {
        let head = RefCounted::new(&mut arena.heap, ListNode::Empty);
        proof {
            lemma_with_empty(arena@, head.id());
            assert forall|x: int| #[trigger] arena@.holds(x) implies arena@.with_empty(head.id()).contents(x)
                == arena@.contents(x) by {
                lemma_contents_kept(arena@, arena@.with_empty(head.id()), x);
            }
        }
        arena.lists = Ghost(arena.lists@.with_empty(head.id()));
        proof {
            assert forall|id: int| arena.heap@.holds(id) <==> #[trigger] arena@.holds(id) by {
                assert(old(arena).heap@.holds(id) <==> old(arena)@.holds(id));
            }
            assert forall|id: int| #[trigger] arena@.holds(id) implies ({
                let e = arena.heap@.entries[id];
                &&& e.weak == 0
                &&& e.strong == arena@.strong(id)
                &&& e.value matches Some(node) && node.item() == arena@.nodes[id].item
            }) by {
                if id != head.id() {
                    assert(old(arena)@.holds(id));
                }
            }
        }
        SharedList { head }
    }

    /// The list with `value` in front of this one. This list is not
    /// changed: the new front node points at it, and it gains a referrer.
    pub fn push_front(&self, arena: &mut ListArena<T>, value: T) -> (list: SharedList<T>)
        requires
            old(arena).wf(),
            self.held_in(old(arena)),
            old(arena)@.strong(self.id()) < usize::MAX,
        ensures
            final(arena).wf(),
            !old(arena)@.holds(list.id()),
            final(arena)@ == old(arena)@.with_front(self.id(), list.id(), value),
            final(arena)@.contents(list.id()) == seq![value] + old(arena)@.contents(self.id()),
            forall|x: int| #[trigger]
                old(arena)@.holds(x) ==> final(arena)@.contents(x) == old(arena)@.contents(x),
    {
        let rest = self.head.clone(&mut arena.heap);
        let head = RefCounted::new(&mut arena.heap, ListNode::Cons(value, rest));
        proof {
            let next = arena@.with_front(self.id(), head.id(), value);
            lemma_with_front(arena@, self.id(), head.id(), value);
            assert forall|x: int| #[trigger] arena@.holds(x) implies next.contents(x) == arena@.contents(x) by {
                lemma_contents_kept(arena@, next, x);
            }
        }
        arena.lists = Ghost(arena.lists@.with_front(self.id(), head.id(), value));
        proof {
            let before = old(arena)@;
            assert forall|id: int| arena.heap@.holds(id) <==> #[trigger] arena@.holds(id) by {
                assert(old(arena).heap@.holds(id) <==> before.holds(id));
            }
            assert forall|id: int| #[trigger] arena@.holds(id) implies ({
                let e = arena.heap@.entries[id];
                &&& e.weak == 0
                &&& e.strong == arena@.strong(id)
                &&& e.value matches Some(node) && node.item() == arena@.nodes[id].item
            }) by {
                if id != head.id() {
                    assert(before.holds(id));
                }
            }
        }
        SharedList { head }
    }

    /// A second handle to the same list.
    pub fn clone(&self, arena: &mut ListArena<T>) -> (list: SharedList<T>)
        requires
            old(arena).wf(),
            self.held_in(old(arena)),
            old(arena)@.strong(self.id()) < usize::MAX,
        ensures
            final(arena).wf(),
            list.id() == self.id(),
            final(arena)@ == old(arena)@.share(self.id()),
            forall|x: int| #[trigger]
                old(arena)@.holds(x) ==> final(arena)@.contents(x) == old(arena)@.contents(x),
    {
        let head = self.head.clone(&mut arena.heap);
        proof {
            let next = arena@.share(self.id());
            lemma_share(arena@, self.id());
            assert forall|x: int| #[trigger] arena@.holds(x) implies next.contents(x) == arena@.contents(x) by {
                lemma_contents_kept(arena@, next, x);
            }
        }
        arena.lists = Ghost(arena.lists@.share(self.id()));
        proof {
            assert forall|id: int| arena.heap@.holds(id) <==> #[trigger] arena@.holds(id) by {
                assert(old(arena).heap@.holds(id) <==> old(arena)@.holds(id));
            }
            assert forall|id: int| #[trigger] arena@.holds(id) implies ({
                let e = arena.heap@.entries[id];
                &&& e.weak == 0
                &&& e.strong == arena@.strong(id)
                &&& e.value matches Some(node) && node.item() == arena@.nodes[id].item
            }) by {
                assert(old(arena)@.holds(id));
            }
        }
        SharedList { head }
    }

    /// Number of strong references to the front node: list handles and
    /// nodes that point at it.
    pub fn strong_count(&self, arena: &ListArena<T>) -> (n: usize)
        requires
            arena.wf(),
        ensures
            n == arena@.strong(self.id()),
    {
        self.head.strong_count(&arena.heap)
    }

    /// The list has no value.
    pub fn is_empty(&self, arena: &ListArena<T>) -> (b: bool)
        requires
            arena.wf(),
            self.held_in(arena),
        ensures
            b == (arena@.contents(self.id()).len() == 0),
    {
        match self.head.get(&arena.heap) {
            ListNode::Empty => true,
            ListNode::Cons(_, _) => false,
        }
    }

    /// The first value, if there is one.
    pub fn first<'a>(&self, arena: &'a ListArena<T>) -> (v: Option<&'a T>)
        requires
            arena.wf(),
            self.held_in(arena),
        ensures
            match v {
                Some(v) => arena@.contents(self.id()).len() > 0 && *v == arena@.contents(self.id())[0],
                None => arena@.contents(self.id()).len() == 0,
            },
    {
        match self.head.get(&arena.heap) {
            ListNode::Empty => None,
            ListNode::Cons(v, _) => Some(v),
        }
    }

    /// The link of the front node: a cursor at the rest of the list after
    /// its first value, if there is one. The link is lent, not copied: no
    /// handle is made and the arena stays as it is.
    pub fn tail<'a>(&'a self, arena: &'a ListArena<T>) -> (rest: Option<Cursor<'a, T>>)
        requires
            arena.wf(),
            self.held_in(arena),
        ensures
            match rest {
                Some(c) => {
                    &&& arena@.tail(self.id()) == Some(c.position())
                    &&& arena@.holds(c.position())
                    &&& arena@.contents(self.id()).len() > 0
                    &&& arena@.contents(c.position()) == arena@.contents(self.id()).skip(1)
                },
                None => arena@.tail(self.id()) is None,
            },
    {
        proof {
            assert(arena@.holds(self.id()));
            assert(arena@.node_wf(self.id()));
        }
        match self.head.get(&arena.heap) {
            ListNode::Empty => None,
            ListNode::Cons(_, rest) => {
                proof {
                    assert(arena@.contents(self.id()).skip(1) =~= arena@.contents(rest.id()));
                }
                Some(Cursor { at: rest })
            },
        }
    }

    /// A counted handle to the rest of the list after its first value, if
    /// there is one. The rest gains a handle: its strong count is one
    /// higher.
    pub fn rest(&self, arena: &mut ListArena<T>) -> (rest: Option<SharedList<T>>)
        requires
            old(arena).wf(),
            self.held_in(old(arena)),
            old(arena)@.tail(self.id()) matches Some(t) ==> old(arena)@.strong(t) < usize::MAX,
        ensures
            final(arena).wf(),
            match rest {
                Some(rest) => {
                    &&& old(arena)@.tail(self.id()) == Some(rest.id())
                    &&& final(arena)@ == old(arena)@.share(rest.id())
                    &&& old(arena)@.contents(self.id()).len() > 0
                    &&& final(arena)@.contents(rest.id()) == old(arena)@.contents(self.id()).skip(1)
                },
                None => old(arena)@.tail(self.id()) is None && final(arena)@ == old(arena)@,
            },
            forall|x: int| #[trigger]
                old(arena)@.holds(x) ==> final(arena)@.contents(x) == old(arena)@.contents(x),
    {
        let head = match self.head.get(&arena.heap) {
            ListNode::Empty => { return None; },
            ListNode::Cons(_, rest) => {
                rest.slot()
            },
        };
        let head = arena.heap.retain_slot(head);
        proof {
            let next = arena@.share(head.id());
            lemma_share(arena@, head.id());
            assert forall|x: int| #[trigger] arena@.holds(x) implies next.contents(x) == arena@.contents(x) by {
                lemma_contents_kept(arena@, next, x);
            }
        }
        arena.lists = Ghost(arena.lists@.share(head.id()));
        proof {
            assert forall|id: int| arena.heap@.holds(id) <==> #[trigger] arena@.holds(id) by {
                assert(old(arena).heap@.holds(id) <==> old(arena)@.holds(id));
            }
            assert forall|id: int| #[trigger] arena@.holds(id) implies ({
                let e = arena.heap@.entries[id];
                &&& e.weak == 0
                &&& e.strong == arena@.strong(id)
                &&& e.value matches Some(node) && node.item() == arena@.nodes[id].item
            }) by {
                assert(old(arena)@.holds(id));
            }
        }
        Some(SharedList { head })
    }
}

impl<T> SharedList<T> {
    /// Gives the handle up. Nodes that nothing points at any more are
    /// reclaimed, front first, down to the first node that another handle
    /// or another list still holds. Every list that a handle still names
    /// reads as before.
    pub fn release(self, arena: &mut ListArena<T>)
        requires
            old(arena).wf(),
            self.held_in(old(arena)),
        ensures
            final(arena).wf(),
            final(arena)@ == old(arena)@.release(self.id()),
            forall|x: int| #[trigger]
                final(arena)@.handles(x) == if x == self.id() {
                    (old(arena)@.handles(x) - 1) as nat
                } else {
                    old(arena)@.handles(x)
                },
            forall|x: int| #[trigger]
                final(arena)@.holds(x) ==> {
                    &&& old(arena)@.holds(x)
                    &&& final(arena)@.contents(x) == old(arena)@.contents(x)
                },
            final(arena)@.holds(self.id()) <==> old(arena)@.strong(self.id()) > 1,
    {
        let ghost target = arena@.release(self.id());
        proof {
            lemma_release(arena@, self.id());
            assert forall|x: int| #[trigger] target.holds(x) implies arena@.holds(x) by {}
        }
        let mut cur = self.head;
        loop
            invariant
                arena.wf(),
                arena@.handles(cur.id()) >= 1,
                arena@.release(cur.id()) == target,
                target == old(arena)@.release(self.id()),
                forall|x: int| #[trigger]
                    target.handles(x) == if x == self.id() {
                        (old(arena)@.handles(x) - 1) as nat
                    } else {
                        old(arena)@.handles(x)
                    },
                forall|x: int| #[trigger]
                    target.holds(x) ==> old(arena)@.holds(x) && target.contents(x) == old(arena)@.contents(x),
                target.holds(self.id()) <==> old(arena)@.strong(self.id()) > 1,
            decreases arena@.len(cur.id()),
        {
            let ghost before = arena@;
            let ghost heap_before = arena.heap@;
            let ghost id = cur.id();
            match cur.release(&mut arena.heap) {
                None => {
                    arena.lists = Ghost(before.release(id));
                    proof {
                        lemma_release(before, id);
                        assert forall|x: int| arena.heap@.holds(x) <==> #[trigger] arena@.holds(x) by {
                            assert(heap_before.holds(x) <==> before.holds(x));
                        }
                    }
                    return ;
                },
                Some(node) => {
                    arena.lists = Ghost(before.unlink(id));
                    proof {
                        lemma_unlink(before, id);
                        assert forall|x: int| arena.heap@.holds(x) <==> #[trigger] arena@.holds(x) by {
                            assert(heap_before.holds(x) <==> before.holds(x));
                        }
                    }
                    match node {
                        ListNode::Empty => {
                            return ;
                        },
                        ListNode::Cons(_, rest) => {
                            cur = rest;
                        },
                    }
                },
            }
        }
    }

    /// The values of the list, front first.
    pub fn to_vec<'a>(&'a self, arena: &'a ListArena<T>) -> (items: Vec<&'a T>)
        requires
            arena.wf(),
            self.held_in(arena),
        ensures
            items@.len() == arena@.contents(self.id()).len(),
            forall|i: int| 0 <= i < items@.len() ==> *items@[i] == arena@.contents(self.id())[i],
    {
        let ghost all = arena@.contents(self.id());
        let mut items: Vec<&'a T> = Vec::new();
        let mut at = &self.head;
        loop
            invariant
                arena.wf(),
                arena@.holds(at.id()),
                all == arena@.contents(self.id()),
                items@.len() <= all.len(),
                all.skip(items@.len() as int) == arena@.contents(at.id()),
                forall|i: int| 0 <= i < items@.len() ==> *items@[i] == all[i],
            decreases arena@.len(at.id()),
        {
            match at.get(&arena.heap) {
                ListNode::Empty => {
                    return items;
                },
                ListNode::Cons(v, rest) => {
                    proof {
                        let n = items@.len() as int;
                        assert(all.skip(n)[0] == *v);
                        assert(all.skip(n).skip(1) =~= arena@.contents(rest.id()));
                    }
                    items.push(v);
                    at = rest;
                },
            }
        }
    }

    /// A cursor at the front of the list. Asking again starts over.
    pub fn iter<'a>(&'a self) -> (cursor: Cursor<'a, T>)
        ensures
            cursor.position() == self.id(),
    {
        Cursor { at: &self.head }
    }
}

impl<'a, T> Cursor<'a, T> {
    /// The node at which the cursor stands.
    pub closed spec fn position(&self) -> int {
        self.at.id()
    }

    /// Whether the cursor stands at the front node of `list`.
    pub fn is_at(&self, list: &SharedList<T>) -> (same: bool)
        ensures
            same == (self.position() == list.id()),
    {
        self.at.ptr_eq(&list.head)
    }

    /// The value at the cursor, which then moves on to the rest; `None` at
    /// the end of the list, where the cursor stays.
    pub fn next(&mut self, arena: &'a ListArena<T>) -> (v: Option<&'a T>)
        requires
            arena.wf(),
            arena@.holds(old(self).position()),
        ensures
            arena@.holds(final(self).position()),
            match v {
                Some(v) => {
                    let rest = arena@.contents(final(self).position());
                    &&& arena@.tail(old(self).position()) == Some(final(self).position())
                    &&& arena@.contents(old(self).position()) == seq![*v] + rest
                },
                None => {
                    &&& arena@.contents(old(self).position()).len() == 0
                    &&& final(self).position() == old(self).position()
                },
            },
    {
        match self.at.get(&arena.heap) {
            ListNode::Empty => None,
            ListNode::Cons(v, rest) => {
                self.at = rest;
                Some(v)
            },
        }
    }
}

} // verus!
