//! Trees whose nodes know their children and their parent.
//!
//! A parent owns its children: each entry of its child list is a strong
//! handle. A child only observes its parent: its parent field is a weak
//! handle. A node is never made a child of itself or of a node below it,
//! so a tree holds no cycle of strong handles, and a node goes when no
//! handle and no child list names it, whatever points back at it.

use crate::cell::{BorrowState, MutCell, SharedGuard};
use crate::heap::{Heap, Ledger, RefCounted, WeakRef};
use vstd::prelude::*;

verus! {

/// What the arena records for one live node.
pub struct TreeView<T> {
    /// The value of the node.
    pub value: T,
    /// The node that the parent field names, alive or not.
    pub parent: Option<int>,
    /// The nodes of the child list, in order.
    pub children: Seq<int>,
    /// How the child list is lent out.
    pub children_state: BorrowState,
    /// Number of strong handles to the node that are not in a child list.
    pub handles: nat,
    /// How deep the node hangs: a number greater than that of its parent
    /// while the parent is alive. It is what shows that no node is below
    /// itself.
    pub depth: nat,
}

/// The arena as a mathematical object: its live nodes, and for every node
/// that still has a record, alive or not, the nodes whose parent field
/// names it.
#[verifier::ext_equal]
pub struct Trees<T> {
    pub nodes: Map<int, TreeView<T>>,
    pub referrers: Map<int, Set<int>>,
}

impl<T> Trees<T> {
    /// The arena with no node.
    pub open spec fn empty() -> Trees<T> {
        Trees { nodes: Map::empty(), referrers: Map::empty() }
    }

    /// The node `id` is alive.
    pub open spec fn live(self, id: int) -> bool {
        self.nodes.dom().contains(id)
    }

    /// The node `id` has a record: it is alive, or a parent field still
    /// names it.
    pub open spec fn recorded(self, id: int) -> bool {
        self.referrers.dom().contains(id)
    }

    /// The node that the parent field of `id` names.
    pub open spec fn parent(self, id: int) -> Option<int> {
        if self.live(id) {
            self.nodes[id].parent
        } else {
            None
        }
    }

    /// The child list of `id`.
    pub open spec fn children(self, id: int) -> Seq<int> {
        if self.live(id) {
            self.nodes[id].children
        } else {
            Seq::empty()
        }
    }

    /// The node `id` is in the child list of a live parent.
    pub open spec fn attached(self, id: int) -> bool {
        self.parent(id) matches Some(p) && self.live(p)
    }

    /// Number of strong handles to `id` outside the child lists.
    pub open spec fn handles(self, id: int) -> nat {
        if self.live(id) {
            self.nodes[id].handles
        } else {
            0
        }
    }

    /// Strong count of `id`: the handles, and one for the child list that
    /// holds it.
    pub open spec fn strong(self, id: int) -> nat {
        if self.attached(id) {
            self.handles(id) + 1
        } else {
            self.handles(id)
        }
    }

    /// Weak count of `id`: the parent fields that name it.
    pub open spec fn weak(self, id: int) -> nat {
        if self.recorded(id) {
            self.referrers[id].len()
        } else {
            0
        }
    }

    /// The live node `id` is held, its child list is not lent out
    /// exclusively, and its children are distinct live nodes whose parent
    /// field names it.
    pub open spec fn node_wf(self, id: int) -> bool {
        let n = self.nodes[id];
        &&& self.recorded(id)
        &&& self.strong(id) > 0
        &&& n.children_state.wf() && !(n.children_state is ExclusivelyBorrowed)
        &&& n.children.no_duplicates()
        &&& n.parent matches Some(p) ==> self.recorded(p)
        &&& forall|i: int| 0 <= i < n.children.len() ==> self.parent(#[trigger] n.children[i]) == Some(id)
    }

    /// How deep the node `id` hangs; see [`TreeView::depth`].
    pub open spec fn depth(self, id: int) -> nat {
        if self.live(id) {
            self.nodes[id].depth
        } else {
            0
        }
    }

    /// The node `c`, whose parent is alive, is in the child list of its
    /// parent and hangs deeper than it.
    pub open spec fn hangs(self, c: int) -> bool {
        let p = self.parent(c)->0;
        &&& self.children(p).contains(c)
        &&& self.depth(p) < self.depth(c)
    }

    /// The top of the tree that holds `id`: the node reached by going from
    /// parent to parent for as long as the parent is alive.
    pub open spec fn root(self, id: int) -> int
        decreases self.depth(id),
    {
        if self.attached(id) && self.depth(self.parent(id)->0) < self.depth(id) {
            self.root(self.parent(id)->0)
        } else {
            id
        }
    }

    /// The node that is `steps` live parents above `id`, if the tree goes
    /// up that far.
    pub open spec fn above(self, id: int, steps: nat) -> Option<int>
        decreases steps,
    {
        if steps == 0 {
            Some(id)
        } else if self.attached(id) {
            self.above(self.parent(id)->0, (steps - 1) as nat)
        } else {
            None
        }
    }

    /// Every live node is well formed; the referrers of a record are
    /// exactly the live nodes whose parent field names it, and a record
    /// without a live node has at least one; a node whose parent is alive
    /// is in its child list and hangs deeper than it, so that going from
    /// parent to parent ends.
    pub open spec fn wf(self) -> bool {
        &&& self.nodes.dom().finite()
        &&& forall|id: int| #[trigger] self.live(id) ==> self.node_wf(id)
        &&& forall|id: int| #[trigger]
            self.recorded(id) ==> self.referrers[id].finite() && (self.live(id) || self.referrers[id].len() > 0)
        &&& forall|id: int, c: int|
            self.recorded(id) ==> (#[trigger] self.referrers[id].contains(c) <==> self.parent(c) == Some(id))
        &&& forall|c: int| #[trigger] self.attached(c) ==> self.hangs(c)
    }

    /// A new node `id` with `value`: no parent, no child, one handle.
    pub open spec fn with_node(self, id: int, value: T) -> Trees<T> {
        Trees {
            nodes: self.nodes.insert(
                id,
                TreeView {
                    value,
                    parent: None,
                    children: Seq::empty(),
                    children_state: BorrowState::Unborrowed,
                    handles: 1,
                    depth: 0,
                },
            ),
            referrers: self.referrers.insert(id, Set::empty()),
        }
    }

    /// One more handle to the live node `id`.
    pub open spec fn share(self, id: int) -> Trees<T> {
        let n = self.nodes[id];
        Trees { nodes: self.nodes.insert(id, TreeView { handles: n.handles + 1, ..n }), ..self }
    }

    /// The parent field of `c` emptied. The record that it named loses a
    /// referrer, and goes if it was kept only for that.
    pub open spec fn forget_parent(self, c: int) -> Trees<T> {
        match self.parent(c) {
            Some(q) => {
                let left = self.referrers[q].remove(c);
                Trees {
                    nodes: self.nodes.insert(c, TreeView { parent: None, ..self.nodes[c] }),
                    referrers: if left.len() == 0 && !self.live(q) {
                        self.referrers.remove(q)
                    } else {
                        self.referrers.insert(q, left)
                    },
                }
            },
            None => self,
        }
    }

    /// The two links of an attachment: the parent field of `c` names `p`,
    /// and the handle that was given is the last entry of the child list
    /// of `p`.
    pub open spec fn linked(self, p: int, c: int) -> Trees<T> {
        let cleared = self.forget_parent(c);
        let child = cleared.nodes[c];
        let with_child = cleared.nodes.insert(
            c,
            TreeView { parent: Some(p), handles: (child.handles - 1) as nat, ..child },
        );
        let par = with_child[p];
        Trees {
            nodes: with_child.insert(p, TreeView { children: par.children.push(c), ..par }),
            referrers: cleared.referrers.insert(p, cleared.referrers[p].insert(c)),
        }
    }

    /// Every node of the tree that had the top `top` in `before` hangs
    /// deeper by `by`.
    pub open spec fn sunk(self, before: Trees<T>, top: int, by: nat) -> Trees<T> {
        Trees {
            nodes: Map::new(
                |x: int| self.live(x),
                |x: int|
                    if before.root(x) == top {
                        TreeView { depth: self.nodes[x].depth + by, ..self.nodes[x] }
                    } else {
                        self.nodes[x]
                    },
            ),
            ..self
        }
    }

    /// The node `c`, which is the top of a tree that does not hold `p`,
    /// made the last child of `p`: its parent field names `p`, the handle
    /// that was given moves into the child list of `p`, and the tree of
    /// `c` hangs below `p`.
    pub open spec fn attach(self, p: int, c: int) -> Trees<T> {
        self.linked(p, c).sunk(self, c, self.depth(p) + 1)
    }

    /// The node `c` taken out of the child list of its live parent: the
    /// parent field is emptied, and the strong handle that the list held
    /// is in hand. A node without a live parent only has its parent field
    /// emptied.
    pub open spec fn detach(self, c: int) -> Trees<T> {
        if self.attached(c) {
            let p = self.parent(c)->0;
            let cleared = self.forget_parent(c);
            let child = cleared.nodes[c];
            let with_child = cleared.nodes.insert(c, TreeView { handles: child.handles + 1, ..child });
            let par = with_child[p];
            Trees {
                nodes: with_child.insert(p, TreeView { children: without(par.children, c), ..par }),
                referrers: cleared.referrers,
            }
        } else {
            self.forget_parent(c)
        }
    }

    /// Why `c` cannot be made a child of `p`, if it cannot: it is still in
    /// the child list of a live parent; or it is `p` or a node above `p`,
    /// so that the tree would close into a cycle; or the child list of `p`
    /// is lent out.
    pub open spec fn attach_error(self, p: int, c: int) -> Option<TreeError> {
        if self.attached(c) {
            Some(TreeError::AlreadyAttached)
        } else if self.root(p) == c {
            Some(TreeError::WouldCycle)
        } else if !(self.nodes[p].children_state is Unborrowed) {
            Some(TreeError::BorrowConflict)
        } else {
            None
        }
    }

    /// Why `c` cannot be detached, if it cannot: the child list that holds
    /// it is lent out.
    pub open spec fn detach_error(self, c: int) -> Option<TreeError> {
        if self.attached(c) && !(self.nodes[self.parent(c)->0].children_state is Unborrowed) {
            Some(TreeError::BorrowConflict)
        } else {
            None
        }
    }

    /// One more handle to each of the live nodes `ids`, which are distinct.
    pub open spec fn share_each(self, ids: Seq<int>) -> Trees<T> {
        Trees {
            nodes: Map::new(
                |x: int| self.live(x),
                |x: int|
                    if ids.contains(x) {
                        TreeView { handles: self.nodes[x].handles + 1, ..self.nodes[x] }
                    } else {
                        self.nodes[x]
                    },
            ),
            ..self
        }
    }

    /// The child list of the live node `id` lent out in state `state`.
    pub open spec fn with_children_state(self, id: int, state: BorrowState) -> Trees<T> {
        Trees { nodes: self.nodes.insert(id, TreeView { children_state: state, ..self.nodes[id] }), ..self }
    }

    /// One more shared borrow of the child list of `id`.
    pub open spec fn lend(self, id: int) -> Trees<T> {
        self.with_children_state(id, self.nodes[id].children_state.acquire_shared())
    }

    /// One shared borrow of the child list of `id` given back.
    pub open spec fn unlend(self, id: int) -> Trees<T> {
        self.with_children_state(id, self.nodes[id].children_state.release_shared())
    }

    /// One handle to the live node `id` fewer, the node staying alive.
    pub open spec fn unshare(self, id: int) -> Trees<T> {
        let n = self.nodes[id];
        Trees { nodes: self.nodes.insert(id, TreeView { handles: (n.handles - 1) as nat, ..n }), ..self }
    }

    /// The node `id` taken away. Its parent field is emptied first; the
    /// strong handles of its child list are then in hand, one for each
    /// child; its record stays while a child's parent field names it.
    pub open spec fn teardown(self, id: int) -> Trees<T> {
        let cleared = self.forget_parent(id);
        let kids = self.children(id);
        Trees {
            nodes: Map::new(
                |x: int| cleared.live(x) && x != id,
                |x: int|
                    if kids.contains(x) {
                        TreeView { handles: cleared.nodes[x].handles + 1, ..cleared.nodes[x] }
                    } else {
                        cleared.nodes[x]
                    },
            ),
            referrers: if cleared.referrers[id].len() == 0 {
                cleared.referrers.remove(id)
            } else {
                cleared.referrers
            },
        }
    }

    /// The handles `pending` given up, last first. A node whose last
    /// handle goes is taken away, and the handles of its child list are
    /// given up after it.
    pub open spec fn drain(self, pending: Seq<int>) -> Trees<T>
        decreases self.nodes.dom().len(), pending.len(),
        when self.nodes.dom().finite()
        via Self::drain_terminates
    {
        if pending.len() == 0 {
            self
        } else {
            let id = pending.last();
            let rest = pending.drop_last();
            if !self.live(id) {
                self
            } else if self.strong(id) > 1 {
                self.unshare(id).drain(rest)
            } else {
                self.teardown(id).drain(rest + self.children(id))
            }
        }
    }

    #[via_fn]
    proof fn drain_terminates(self, pending: Seq<int>) {
        if pending.len() > 0 && self.live(pending.last()) {
            let id = pending.last();
            assert(self.teardown(id).nodes.dom() =~= self.nodes.dom().remove(id));
        }
    }

    /// One handle to `id` given up, with all that follows from it.
    pub open spec fn release(self, id: int) -> Trees<T> {
        self.drain(seq![id])
    }

    /// The handles `pending` are in hand, each to another node, and all
    /// but the last to nodes that no live parent holds.
    pub open spec fn pending_ok(self, pending: Seq<int>) -> bool {
        &&& pending.no_duplicates()
        &&& forall|i: int| 0 <= i < pending.len() ==> self.handles(#[trigger] pending[i]) >= 1
        &&& forall|i: int| 0 <= i < pending.len() - 1 ==> !self.attached(#[trigger] pending[i])
    }

    /// What `self` records of its live nodes is what `old` recorded: the
    /// value, the parent field, the child list, and how the child list
    /// is lent out.
    pub open spec fn kept_from(self, old: Trees<T>) -> bool {
        forall|x: int| #[trigger]
            self.live(x) ==> {
                &&& old.live(x)
                &&& self.nodes[x].value == old.nodes[x].value
                &&& self.nodes[x].parent == old.nodes[x].parent
                &&& self.nodes[x].children == old.nodes[x].children
                &&& self.nodes[x].children_state == old.nodes[x].children_state
            }
    }
}

/// The sequence without its first `x`.
pub open spec fn without(s: Seq<int>, x: int) -> Seq<int> {
    if s.contains(x) {
        s.remove(s.index_of(x))
    } else {
        s
    }
}

/// In a sequence without duplicates, taking out the entry at `i` takes out
/// that value and nothing else.
pub proof fn lemma_without(s: Seq<int>, i: int)
    requires
        s.no_duplicates(),
        0 <= i < s.len(),
    ensures
        without(s, s[i]) == s.remove(i),
        s.remove(i).no_duplicates(),
        !s.remove(i).contains(s[i]),
        forall|y: int| y != s[i] ==> (s.remove(i).contains(y) <==> s.contains(y)),
{
    let x = s[i];
    let r = s.remove(i);
    assert forall|y: int| y != x implies (r.contains(y) <==> s.contains(y)) by {
        if s.contains(y) {
            let j = choose|j: int| 0 <= j < s.len() && s[j] == y;
            if j < i {
                assert(r[j] == y);
            } else {
                assert(r[j - 1] == y);
            }
        }
    }
}

/// A new node keeps the arena valid and touches no other node.
pub proof fn lemma_with_node<T>(trees: Trees<T>, id: int, value: T)
    requires
        trees.wf(),
        !trees.recorded(id),
    ensures
        trees.with_node(id, value).wf(),
{
    let next = trees.with_node(id, value);
    assert forall|x: int| #[trigger] next.live(x) implies next.node_wf(x) by {
        if x != id {
            assert(trees.live(x));
        }
    }
    assert forall|x: int| #[trigger] next.recorded(x) implies next.referrers[x].finite() && (next.live(x)
        || next.referrers[x].len() > 0) by {
        if x != id {
            assert(trees.recorded(x));
        }
    }
    assert forall|c: int| #[trigger] next.attached(c) implies next.hangs(c) by {
        assert(trees.attached(c));
    }
}

/// One more handle keeps the arena valid.
pub proof fn lemma_share<T>(trees: Trees<T>, id: int)
    requires
        trees.wf(),
        trees.live(id),
    ensures
        trees.share(id).wf(),
{
    let next = trees.share(id);
    assert forall|x: int| #[trigger] next.live(x) implies next.node_wf(x) by {
        assert(trees.live(x));
    }
    assert forall|x: int| #[trigger] next.recorded(x) implies next.referrers[x].finite() && (next.live(x)
        || next.referrers[x].len() > 0) by {
        assert(trees.recorded(x));
    }
    assert forall|c: int| #[trigger] next.attached(c) implies next.hangs(c) by {
        assert(trees.attached(c));
    }
}

/// Emptying the parent field of a node that no live parent holds keeps
/// the arena valid.
pub proof fn lemma_forget_parent<T>(trees: Trees<T>, c: int)
    requires
        trees.wf(),
        trees.live(c),
        !trees.attached(c),
    ensures
        trees.forget_parent(c).wf(),
        trees.forget_parent(c).parent(c) is None,
        trees.forget_parent(c).nodes.dom() == trees.nodes.dom(),
        forall|x: int| #[trigger] trees.live(x) && x != c ==> trees.forget_parent(c).nodes[x] == trees.nodes[x],
        forall|x: int|
            trees.live(x) ==> trees.forget_parent(c).recorded(x) && #[trigger] trees.forget_parent(c).referrers[x]
                == trees.referrers[x],
{
    let next = trees.forget_parent(c);
    match trees.parent(c) {
        Some(q) => {
            let left = trees.referrers[q].remove(c);
            assert forall|x: int| x != c implies trees.parent(x) != Some(q) || next.recorded(q) by {
                if trees.parent(x) == Some(q) {
                    assert(left.contains(x));
                }
            }
            assert forall|x: int| #[trigger] next.live(x) implies next.node_wf(x) by {
                assert(trees.live(x));
            }
            assert forall|x: int| #[trigger] next.recorded(x) implies next.referrers[x].finite() && (next.live(x)
                || next.referrers[x].len() > 0) by {
                assert(trees.recorded(x));
            }
            assert forall|y: int| #[trigger] next.attached(y) implies next.hangs(y) by {
                assert(trees.attached(y));
            }
        },
        None => {},
    }
}

/// The top of a tree is not held by a live parent, and a node that is
/// held by none is the top of its tree.
pub proof fn lemma_root<T>(trees: Trees<T>, id: int)
    requires
        trees.wf(),
    ensures
        !trees.attached(trees.root(id)),
        trees.live(id) ==> trees.live(trees.root(id)),
        !trees.attached(id) ==> trees.root(id) == id,
        trees.attached(id) ==> trees.root(id) == trees.root(trees.parent(id)->0),
    decreases trees.depth(id),
{
    if trees.attached(id) {
        assert(trees.hangs(id));
        lemma_root(trees, trees.parent(id)->0);
    }
}

/// No node is above itself: going up from a node by one live parent or
/// more never comes back to it. So the child lists, which hold the strong
/// handles, close no cycle.
pub proof fn lemma_no_node_above_itself<T>(trees: Trees<T>, id: int, steps: nat)
    requires
        trees.wf(),
        steps >= 1,
        trees.above(id, steps) is Some,
    ensures
        trees.above(id, steps) != Some(id),
        trees.depth(trees.above(id, steps)->0) < trees.depth(id),
    decreases steps,
{
    assert(trees.attached(id));
    assert(trees.hangs(id));
    if steps > 1 {
        lemma_no_node_above_itself(trees, trees.parent(id)->0, (steps - 1) as nat);
    } else {
        assert(trees.above(trees.parent(id)->0, 0) == Some(trees.parent(id)->0));
    }
}

/// The top of a tree depends only on which nodes are alive, on their
/// parent fields and on how deep they hang.
pub proof fn lemma_root_kept<T>(from: Trees<T>, to: Trees<T>, id: int)
    requires
        forall|x: int| #[trigger] from.live(x) <==> to.live(x),
        forall|x: int| #[trigger]
            from.live(x) ==> from.nodes[x].parent == to.nodes[x].parent && from.nodes[x].depth == to.nodes[x].depth,
    ensures
        from.root(id) == to.root(id),
    decreases from.depth(id),
{
    if from.attached(id) && from.depth(from.parent(id)->0) < from.depth(id) {
        assert(from.live(id));
        assert(from.live(from.parent(id)->0));
        lemma_root_kept(from, to, from.parent(id)->0);
    } else {
        if from.live(id) {
            if from.parent(id) is Some {
                assert(from.live(from.parent(id)->0) <==> to.live(from.parent(id)->0));
            }
        } else {
            assert(!to.live(id));
        }
    }
}

/// Attaching keeps the arena valid. The child's parent field names the
/// parent, the child is the last entry of the parent's child list, the
/// parent has one weak handle more, and no strong count changes: the
/// handle that was given is the one now in the list.
pub proof fn lemma_attach<T>(trees: Trees<T>, p: int, c: int)
    requires
        trees.wf(),
        trees.live(p),
        trees.handles(c) >= 1,
        !trees.attached(c),
        trees.root(p) != c,
    ensures
        trees.attach(p, c).wf(),
        trees.attach(p, c).nodes.dom() == trees.nodes.dom(),
        trees.attach(p, c).parent(c) == Some(p),
        trees.attach(p, c).children(p) == trees.children(p).push(c),
        trees.attach(p, c).weak(p) == trees.weak(p) + 1,
        forall|x: int| #[trigger] trees.attach(p, c).strong(x) == trees.strong(x),
        forall|x: int| x != c ==> #[trigger] trees.attach(p, c).handles(x) == trees.handles(x),
        trees.attach(p, c).handles(c) == trees.handles(c) - 1,
{
    let cleared = trees.forget_parent(c);
    let linked = trees.linked(p, c);
    let next = trees.attach(p, c);
    let by = trees.depth(p) + 1;
    lemma_forget_parent(trees, c);
    lemma_root(trees, p);
    lemma_root(trees, c);
    assert(trees.live(c));
    assert(p != c);
    assert(cleared.live(c) && cleared.live(p));
    assert(cleared.node_wf(c));
    assert(cleared.node_wf(p));
    assert(cleared.recorded(p));
    assert(cleared.referrers[p].contains(c) <==> cleared.parent(c) == Some(p));
    assert(linked.nodes.dom() =~= trees.nodes.dom());
    assert(next.nodes.dom() =~= trees.nodes.dom());
    assert forall|x: int| #[trigger] next.live(x) implies {
        &&& next.nodes[x].value == linked.nodes[x].value
        &&& next.nodes[x].parent == linked.nodes[x].parent
        &&& next.nodes[x].children == linked.nodes[x].children
        &&& next.nodes[x].children_state == linked.nodes[x].children_state
        &&& next.nodes[x].handles == linked.nodes[x].handles
        &&& next.nodes[x].depth == trees.nodes[x].depth + if trees.root(x) == c {
            by
        } else {
            0
        }
    } by {
        assert(linked.live(x));
        if x != c {
            assert(cleared.nodes[x] == trees.nodes[x]);
        }
    }
    assert forall|x: int| next.parent(x) == if x == c {
        Some(p)
    } else {
        cleared.parent(x)
    } by {
        if next.live(x) {
            assert(linked.live(x));
        }
    }
    assert(!cleared.children(p).contains(c)) by {
        if cleared.children(p).contains(c) {
            let i = choose|i: int| 0 <= i < cleared.children(p).len() && cleared.children(p)[i] == c;
            assert(cleared.parent(cleared.nodes[p].children[i]) == Some(p));
        }
    }
    assert(cleared.nodes[p] == trees.nodes[p]);
    assert(next.children(p) =~= trees.children(p).push(c));
    assert forall|x: int| #[trigger] next.live(x) implies next.node_wf(x) by {
        assert(cleared.live(x));
        assert(cleared.node_wf(x));
        let n = next.nodes[x];
        assert forall|i: int| 0 <= i < n.children.len() implies next.parent(#[trigger] n.children[i]) == Some(x) by {
            if x != p || i < n.children.len() - 1 {
                assert(cleared.parent(cleared.nodes[x].children[i]) == Some(x));
            }
        }
        if x == p {
            assert forall|i: int, j: int| 0 <= i < j < n.children.len() implies n.children[i] != n.children[j] by {
                if j == n.children.len() - 1 {
                    assert(cleared.children(p)[i] == n.children[i]);
                }
            }
        }
    }
    assert forall|x: int| #[trigger] next.recorded(x) implies next.referrers[x].finite() && (next.live(x)
        || next.referrers[x].len() > 0) by {
        assert(cleared.recorded(x));
    }
    assert forall|x: int, y: int| next.recorded(x) implies (#[trigger] next.referrers[x].contains(y)
        <==> next.parent(y) == Some(x)) by {
        assert(cleared.recorded(x));
        assert(cleared.referrers[x].contains(y) <==> cleared.parent(y) == Some(x));
    }
    assert forall|y: int| #[trigger] next.attached(y) implies next.hangs(y) by {
        if y == c {
            assert(next.children(p).last() == c);
            assert(trees.root(c) == c);
        } else {
            assert(cleared.attached(y));
            assert(cleared.nodes[y] == trees.nodes[y]);
            assert(trees.attached(y));
            assert(trees.hangs(y));
            let q = trees.parent(y)->0;
            lemma_root(trees, y);
            assert(trees.root(y) == trees.root(q));
            if q != c {
                assert(cleared.nodes[q] == trees.nodes[q]);
            }
            let i = choose|i: int| 0 <= i < trees.children(q).len() && trees.children(q)[i] == y;
            assert(cleared.children(q)[i] == y);
            assert(next.children(q)[i] == y);
        }
    }
    assert forall|x: int| #[trigger] next.strong(x) == trees.strong(x) by {
        if trees.live(x) && x != c {
            assert(cleared.nodes[x] == trees.nodes[x]);
        }
    }
    assert forall|x: int| x != c implies #[trigger] next.handles(x) == trees.handles(x) by {
        if trees.live(x) {
            assert(cleared.nodes[x] == trees.nodes[x]);
        }
    }
}

/// Detaching keeps the arena valid and empties the child's parent field.
/// A child that a live parent held leaves its child list, and the strong
/// handle that the list held is in hand; no strong count changes.
pub proof fn lemma_detach<T>(trees: Trees<T>, c: int)
    requires
        trees.wf(),
        trees.live(c),
    ensures
        trees.detach(c).wf(),
        trees.detach(c).nodes.dom() == trees.nodes.dom(),
        trees.detach(c).parent(c) is None,
        forall|x: int| #[trigger] trees.detach(c).strong(x) == trees.strong(x),
        forall|x: int| x != c ==> #[trigger] trees.detach(c).handles(x) == trees.handles(x),
        trees.detach(c).handles(c) == trees.handles(c) + if trees.attached(c) {
            1nat
        } else {
            0nat
        },
        trees.attached(c) ==> {
            let p = trees.parent(c)->0;
            &&& trees.detach(c).children(p) == without(trees.children(p), c)
            &&& !trees.detach(c).children(p).contains(c)
            &&& trees.detach(c).weak(p) == trees.weak(p) - 1
        },
{
    let next = trees.detach(c);
    if !trees.attached(c) {
        lemma_forget_parent(trees, c);
    } else {
        let p = trees.parent(c)->0;
        let kids = trees.children(p);
        let i = kids.index_of(c);
        lemma_without(kids, i);
        assert forall|x: int| next.parent(x) == if x == c {
            None
        } else {
            trees.parent(x)
        } by {}
        assert forall|x: int| #[trigger] next.live(x) implies next.node_wf(x) by {
            assert(trees.live(x));
        }
        assert forall|x: int| #[trigger] next.recorded(x) implies next.referrers[x].finite() && (next.live(x)
            || next.referrers[x].len() > 0) by {
            assert(trees.recorded(x));
        }
        assert forall|x: int| #[trigger] next.strong(x) == trees.strong(x) by {}
        assert forall|x: int| x != c implies #[trigger] next.handles(x) == trees.handles(x) by {}
    }
}

/// Giving up a handle that is not the last strong one keeps the arena
/// valid and changes nothing else.
pub proof fn lemma_unshare<T>(trees: Trees<T>, id: int)
    requires
        trees.wf(),
        trees.handles(id) >= 1,
        trees.strong(id) > 1,
    ensures
        trees.unshare(id).wf(),
        trees.unshare(id).nodes.dom() == trees.nodes.dom(),
        trees.unshare(id).kept_from(trees),
        forall|x: int| #[trigger] trees.unshare(id).attached(x) == trees.attached(x),
        forall|x: int|
            #[trigger] trees.unshare(id).handles(x) == if x == id {
                (trees.handles(x) - 1) as nat
            } else {
                trees.handles(x)
            },
{
    let next = trees.unshare(id);
    assert forall|x: int| #[trigger] next.live(x) implies next.node_wf(x) by {
        assert(trees.live(x));
    }
    assert forall|x: int| #[trigger] next.recorded(x) implies next.referrers[x].finite() && (next.live(x)
        || next.referrers[x].len() > 0) by {
        assert(trees.recorded(x));
    }
    assert forall|c: int| #[trigger] next.attached(c) implies next.hangs(c) by {
        assert(trees.attached(c));
    }
}

/// Taking away a node that only one handle holds keeps the arena valid.
/// The other nodes stay as they were, but that each child of the node has
/// its handle from the child list now in hand, and is held by no live
/// parent.
pub proof fn lemma_teardown<T>(trees: Trees<T>, id: int)
    requires
        trees.wf(),
        trees.handles(id) == 1,
        !trees.attached(id),
    ensures
        trees.teardown(id).wf(),
        trees.teardown(id).nodes.dom() == trees.nodes.dom().remove(id),
        trees.teardown(id).kept_from(trees),
        forall|x: int| #[trigger] trees.teardown(id).attached(x) ==> trees.attached(x),
        forall|x: int| trees.children(id).contains(x) ==> !(#[trigger] trees.teardown(id).attached(x)),
        forall|x: int|
            #[trigger] trees.teardown(id).handles(x) == if x == id {
                0nat
            } else if trees.children(id).contains(x) {
                trees.handles(x) + 1
            } else {
                trees.handles(x)
            },
        !trees.children(id).contains(id),
{
    let cleared = trees.forget_parent(id);
    let next = trees.teardown(id);
    lemma_forget_parent(trees, id);
    assert(next.nodes.dom() =~= trees.nodes.dom().remove(id));
    if cleared.referrers[id].len() == 0 {
        assert forall|x: int| cleared.parent(x) != Some(id) by {
            assert(cleared.referrers[id].contains(x) <==> cleared.parent(x) == Some(id));
        }
    }
    assert forall|x: int| next.parent(x) == if x == id {
        None
    } else {
        cleared.parent(x)
    } by {}
    assert forall|x: int| #[trigger] next.recorded(x) implies next.referrers[x].finite() && (next.live(x)
        || next.referrers[x].len() > 0) by {
        assert(cleared.recorded(x));
    }
}

/// One step of giving handles up: the last handle of `pending` goes. If
/// it was not the last strong handle to its node, the others are still
/// in hand. If it was, the node is taken away and the handles of its child
/// list join the others, all of them to different nodes.
pub proof fn lemma_pending_step<T>(trees: Trees<T>, pending: Seq<int>)
    requires
        trees.wf(),
        trees.pending_ok(pending),
        pending.len() > 0,
    ensures
        ({
            let id = pending.last();
            let rest = pending.drop_last();
            let kids = trees.children(id);
            &&& trees.handles(id) >= 1
            &&& !rest.contains(id)
            &&& forall|x: int| pending.contains(x) <==> rest.contains(x) || x == id
            &&& trees.strong(id) > 1 ==> trees.unshare(id).wf() && trees.unshare(id).pending_ok(rest)
            &&& trees.strong(id) <= 1 ==> {
                &&& trees.handles(id) == 1
                &&& !trees.attached(id)
                &&& trees.teardown(id).wf()
                &&& trees.teardown(id).pending_ok(rest + kids)
                &&& forall|x: int| (rest + kids).contains(x) <==> rest.contains(x) || kids.contains(x)
                &&& forall|x: int| rest.contains(x) ==> !kids.contains(x)
            }
        }),
{
    let id = pending.last();
    let rest = pending.drop_last();
    assert forall|x: int| pending.contains(x) <==> rest.contains(x) || x == id by {
        if pending.contains(x) {
            let i = choose|i: int| 0 <= i < pending.len() && pending[i] == x;
            if i < pending.len() - 1 {
                assert(rest[i] == x);
            }
        }
    }
    if trees.strong(id) > 1 {
        let next = trees.unshare(id);
        lemma_unshare(trees, id);
    } else {
        let next = trees.teardown(id);
        let kids = trees.children(id);
        let more = rest + kids;
        lemma_teardown(trees, id);
        assert forall|x: int| more.contains(x) <==> rest.contains(x) || kids.contains(x) by {
            if rest.contains(x) {
                let i = choose|i: int| 0 <= i < rest.len() && rest[i] == x;
                assert(more[i] == x);
            }
            if kids.contains(x) {
                let i = choose|i: int| 0 <= i < kids.len() && kids[i] == x;
                assert(more[rest.len() + i] == x);
            }
        }
    }
}

/// Giving handles up keeps the arena valid and takes nothing from any
/// other handle. Every node has the handles it had, less the one given
/// up if one was; a node goes only when it is left with none and with no
/// live parent. What stays alive keeps its value, its parent field and
/// its child list.
pub proof fn lemma_drain<T>(trees: Trees<T>, pending: Seq<int>)
    requires
        trees.wf(),
        trees.pending_ok(pending),
    ensures
        trees.drain(pending).wf(),
        trees.drain(pending).kept_from(trees),
        forall|x: int|
            #[trigger] trees.drain(pending).handles(x) == trees.handles(x) - if pending.contains(x) {
                1int
            } else {
                0int
            },
    decreases trees.nodes.dom().len(), pending.len(),
{
    if pending.len() > 0 {
        let id = pending.last();
        let rest = pending.drop_last();
        let kids = trees.children(id);
        lemma_pending_step(trees, pending);
        let next = if trees.strong(id) > 1 {
            trees.unshare(id)
        } else {
            trees.teardown(id)
        };
        let more = if trees.strong(id) > 1 {
            rest
        } else {
            rest + kids
        };
        if trees.strong(id) <= 1 {
            lemma_teardown(trees, id);
        }
        lemma_drain(next, more);
    }
}

/// Giving one handle up: the arena stays valid, every other handle stays
/// good, what stays alive stays as it was, and the node itself stays
/// alive exactly if the handle was not its last strong one.
pub proof fn lemma_release<T>(trees: Trees<T>, id: int)
    requires
        trees.wf(),
        trees.handles(id) >= 1,
    ensures
        trees.release(id).wf(),
        trees.release(id).kept_from(trees),
        forall|x: int|
            #[trigger] trees.release(id).handles(x) == trees.handles(x) - if x == id {
                1int
            } else {
                0int
            },
        trees.release(id).live(id) <==> trees.strong(id) > 1,
{
    let pending = seq![id];
    assert(pending.drop_last() =~= Seq::<int>::empty());
    if trees.strong(id) > 1 {
        lemma_unshare(trees, id);
        assert(trees.release(id) == trees.unshare(id).drain(Seq::<int>::empty()));
    } else {
        lemma_teardown(trees, id);
        let next = trees.teardown(id);
        let more = Seq::<int>::empty() + trees.children(id);
        lemma_drain(next, more);
    }
}

/// Lending the child list out, or taking it back, keeps the arena valid
/// as long as the list is not lent out exclusively.
pub proof fn lemma_with_children_state<T>(trees: Trees<T>, id: int, state: BorrowState)
    requires
        trees.wf(),
        trees.live(id),
        state.wf(),
        !(state is ExclusivelyBorrowed),
    ensures
        trees.with_children_state(id, state).wf(),
{
    let next = trees.with_children_state(id, state);
    assert forall|x: int| #[trigger] next.live(x) implies next.node_wf(x) by {
        assert(trees.live(x));
    }
    assert forall|x: int| #[trigger] next.recorded(x) implies next.referrers[x].finite() && (next.live(x)
        || next.referrers[x].len() > 0) by {
        assert(trees.recorded(x));
    }
    assert forall|c: int| #[trigger] next.attached(c) implies next.hangs(c) by {
        assert(trees.attached(c));
    }
}

/// Attaching a copy of a handle: when a program copies its handle to a
/// detached node `c` and attaches the copy to a node `p` of another tree,
/// then `c` names `p` as its parent and is the last child of `p`; the strong count
/// of `p` is as before, since the link back to it is weak; the strong
/// count of `c` is one more, for the handle in the child list; and the
/// program still has its own handles.
pub proof fn lemma_attach_keeps_parent_count<T>(trees: Trees<T>, p: int, c: int)
    requires
        trees.wf(),
        trees.live(p),
        trees.live(c),
        !trees.attached(c),
        trees.root(p) != c,
    ensures
        ({
            let after = trees.share(c).attach(p, c);
            &&& after.wf()
            &&& after.parent(c) == Some(p)
            &&& after.attached(c)
            &&& after.children(p) == trees.children(p).push(c)
            &&& after.children(p).contains(c)
            &&& after.strong(p) == trees.strong(p)
            &&& after.strong(c) == trees.strong(c) + 1
            &&& after.weak(p) == trees.weak(p) + 1
            &&& after.handles(c) == trees.handles(c)
            &&& after.handles(p) == trees.handles(p)
        }),
{
    let shared = trees.share(c);
    let after = shared.attach(p, c);
    lemma_share(trees, c);
    lemma_root_kept(trees, shared, p);
    lemma_attach(shared, p, c);
    assert(after.strong(p) == shared.strong(p));
    assert(after.strong(c) == shared.strong(c));
    assert(after.children(p).last() == c);
}

/// A node of a tree: a value, a weak handle to the parent, and strong
/// handles to the children. The two links sit in cells, since they change
/// while handles to the node are shared.
pub struct TreeNode<T> {
    value: T,
    parent: MutCell<Option<WeakRef<TreeNode<T>>>>,
    children: MutCell<Vec<RefCounted<TreeNode<T>>>>,
}

/// The arena in which trees keep their nodes.
pub struct TreeArena<T> {
    heap: Heap<TreeNode<T>>,
    trees: Ghost<Trees<T>>,
}

/// Why a node could not be attached or detached.
#[derive(Clone, Copy, Debug, PartialEq, Eq, Structural)]
pub enum TreeError {
    /// A child list that had to change is lent out.
    BorrowConflict,
    /// The node is still in the child list of a live parent.
    AlreadyAttached,
    /// The node is the one it was to hang below, or a node above that one.
    WouldCycle,
}

impl<T> TreeNode<T> {
    /// The nodes that a sequence of handles names, in order.
    pub open spec fn ids(handles: Seq<RefCounted<TreeNode<T>>>) -> Seq<int> {
        Seq::new(handles.len(), |i: int| handles[i].id())
    }

    spec fn parent_target(self) -> Option<int> {
        match self.parent.value() {
            Some(weak) => weak.target(),
            None => None,
        }
    }

    spec fn shows(self, v: TreeView<T>) -> bool {
        &&& self.value == v.value
        &&& self.parent_target() == v.parent
        &&& self.parent.state() is Unborrowed
        &&& Self::ids(self.children.value()@) == v.children
        &&& self.children.state() == v.children_state
    }
}

spec fn agree<T>(heap: Ledger<TreeNode<T>>, trees: Trees<T>) -> bool {
    &&& forall|id: int| heap.holds(id) <==> #[trigger] trees.recorded(id)
    &&& forall|id: int| heap.live(id) <==> #[trigger] trees.live(id)
    &&& forall|id: int| #[trigger]
        trees.recorded(id) ==> heap.entries[id].strong == trees.strong(id) && heap.entries[id].weak == trees.weak(id)
    &&& forall|id: int| #[trigger] trees.live(id) ==> heap.value(id).shows(trees.nodes[id])
}

impl<T> View for TreeArena<T> {
    type V = Trees<T>;

    closed spec fn view(&self) -> Trees<T> {
        self.trees@
    }
}

impl<T> TreeArena<T> {
    /// The store holds exactly the recorded nodes, with the recorded
    /// counts, values and links.
    pub closed spec fn inv(&self) -> bool {
        &&& self.heap.wf()
        &&& agree(self.heap@, self@)
    }

    /// Validity of the arena.
    pub open spec fn wf(&self) -> bool {
        &&& self.inv()
        &&& self@.wf()
    }

    /// An arena with no node.
    pub fn new() -> (arena: TreeArena<T>)
        ensures
            arena.wf(),
            arena@ == Trees::<T>::empty(),
    {
        TreeArena { heap: Heap::new(), trees: Ghost(Trees::empty()) }
    }
}

impl<T> TreeNode<T> {
    /// A new node with `value`: detached, without children, and with one
    /// handle, which is returned.
    pub fn new(arena: &mut TreeArena<T>, value: T) -> (node: RefCounted<TreeNode<T>>)
        requires
            old(arena).wf(),
        ensures
            final(arena).wf(),
            !old(arena)@.recorded(node.id()),
            final(arena)@ == old(arena)@.with_node(node.id(), value),
    {
        let payload = TreeNode { value, parent: MutCell::new(None), children: MutCell::new(Vec::new()) };
        let node = RefCounted::new(&mut arena.heap, payload);
        let ghost before = arena@;
        proof {
            lemma_with_node(before, node.id(), value);
        }
        arena.trees = Ghost(before.with_node(node.id(), value));
        proof {
            let id = node.id();
            assert(Self::ids(payload.children.value()@) =~= Seq::<int>::empty());
            assert forall|x: int| arena.heap@.holds(x) <==> #[trigger] arena@.recorded(x) by {
                assert(old(arena).heap@.holds(x) <==> before.recorded(x));
            }
            assert forall|x: int| arena.heap@.live(x) <==> #[trigger] arena@.live(x) by {
                assert(old(arena).heap@.live(x) <==> before.live(x));
            }
            assert forall|x: int| #[trigger] arena@.recorded(x) implies arena.heap@.entries[x].strong
                == arena@.strong(x) && arena.heap@.entries[x].weak == arena@.weak(x) by {
                if x != id {
                    assert(before.recorded(x));
                }
            }
            assert forall|x: int| #[trigger] arena@.live(x) implies arena.heap@.value(x).shows(arena@.nodes[x]) by {
                if x != id {
                    assert(before.live(x));
                }
            }
        }
        node
    }

    /// The value of a live node.
    pub fn value<'a>(arena: &'a TreeArena<T>, node: &RefCounted<TreeNode<T>>) -> (v: &'a T)
        requires
            arena.wf(),
            arena@.live(node.id()),
        ensures
            *v == arena@.nodes[node.id()].value,
    {
        &node.get(&arena.heap).value
    }

    /// Number of strong handles to the node, the one in its parent's child
    /// list included.
    pub fn strong_count(arena: &TreeArena<T>, node: &RefCounted<TreeNode<T>>) -> (n: usize)
        requires
            arena.wf(),
        ensures
            n == arena@.strong(node.id()),
    {
        node.strong_count(&arena.heap)
    }

    /// Number of weak handles to the node: the parent fields that name it.
    pub fn weak_count(arena: &TreeArena<T>, node: &RefCounted<TreeNode<T>>) -> (n: usize)
        requires
            arena.wf(),
        ensures
            n == arena@.weak(node.id()),
    {
        node.weak_count(&arena.heap)
    }

    /// A second handle to the same node.
    pub fn share(arena: &mut TreeArena<T>, node: &RefCounted<TreeNode<T>>) -> (other: RefCounted<TreeNode<T>>)
        requires
            old(arena).wf(),
            old(arena)@.live(node.id()),
            old(arena)@.strong(node.id()) < usize::MAX,
        ensures
            final(arena).wf(),
            other.id() == node.id(),
            final(arena)@ == old(arena)@.share(node.id()),
    {
        let ghost before = arena@;
        let other = node.clone(&mut arena.heap);
        arena.trees = Ghost(before.share(node.id()));
        proof {
            lemma_share(before, node.id());
            lemma_agree_share(old(arena).heap@, before, node.id());
        }
        other
    }
}

/// The store and the record still agree after one more handle to `id`.
proof fn lemma_agree_share<T>(heap: Ledger<TreeNode<T>>, trees: Trees<T>, id: int)
    requires
        agree(heap, trees),
        trees.wf(),
        trees.live(id),
    ensures
        agree(heap.retain(id), trees.share(id)),
{
    let heap2 = heap.retain(id);
    let next = trees.share(id);
    assert forall|x: int| heap2.holds(x) <==> #[trigger] next.recorded(x) by {
        assert(heap.holds(x) <==> trees.recorded(x));
    }
    assert forall|x: int| heap2.live(x) <==> #[trigger] next.live(x) by {
        assert(heap.live(x) <==> trees.live(x));
    }
    assert forall|x: int| #[trigger] next.recorded(x) implies heap2.entries[x].strong == next.strong(x)
        && heap2.entries[x].weak == next.weak(x) by {
        assert(trees.recorded(x));
    }
    assert forall|x: int| #[trigger] next.live(x) implies heap2.value(x).shows(next.nodes[x]) by {
        assert(trees.live(x));
    }
}

/// The store and the record still agree when the payload of the live node
/// `id` is replaced by one that shows `view`, as long as `view` leaves the
/// node's parent field and handles as they were.
proof fn lemma_agree_store<T>(heap: Ledger<TreeNode<T>>, trees: Trees<T>, id: int, node: TreeNode<T>, view: TreeView<T>)
    requires
        agree(heap, trees),
        trees.live(id),
        node.shows(view),
        view.parent == trees.nodes[id].parent,
        view.handles == trees.nodes[id].handles,
    ensures
        agree(heap.store(id, node), Trees { nodes: trees.nodes.insert(id, view), ..trees }),
{
    let heap2 = heap.store(id, node);
    let next = Trees { nodes: trees.nodes.insert(id, view), ..trees };
    assert forall|x: int| heap2.holds(x) <==> #[trigger] next.recorded(x) by {
        assert(heap.holds(x) <==> trees.recorded(x));
    }
    assert forall|x: int| heap2.live(x) <==> #[trigger] next.live(x) by {
        assert(heap.live(x) <==> trees.live(x));
    }
    assert forall|x: int| #[trigger] next.recorded(x) implies heap2.entries[x].strong == next.strong(x)
        && heap2.entries[x].weak == next.weak(x) by {
        assert(trees.recorded(x));
    }
    assert forall|x: int| #[trigger] next.live(x) implies heap2.value(x).shows(next.nodes[x]) by {
        assert(trees.live(x));
    }
}

impl<T> TreeNode<T> {
    /// The slot that the parent field of the live node in slot `i` names.
    fn parent_of(arena: &TreeArena<T>, i: usize) -> (slot: Option<usize>)
        requires
            arena.wf(),
            arena@.live(i as int),
        ensures
            match slot {
                Some(q) => arena@.parent(i as int) == Some(q as int),
                None => arena@.parent(i as int) is None,
            },
    {
        proof {
            assert(arena.heap@.live(i as int) <==> arena@.live(i as int));
        }
        match arena.heap.slot_value(i).parent.read() {
            Ok(Some(weak)) => weak.slot(),
            _ => None,
        }
    }

    /// The slot that the parent field of a live node names.
    fn parent_slot(arena: &TreeArena<T>, node: &RefCounted<TreeNode<T>>) -> (slot: Option<usize>)
        requires
            arena.wf(),
            arena@.live(node.id()),
        ensures
            match slot {
                Some(q) => arena@.parent(node.id()) == Some(q as int),
                None => arena@.parent(node.id()) is None,
            },
    {
        Self::parent_of(arena, node.slot())
    }

    /// The slot of the top of the tree that holds the live node in slot
    /// `i`, found by going from parent to parent.
    fn root_slot(arena: &TreeArena<T>, i: usize) -> (top: usize)
        requires
            arena.wf(),
            arena@.live(i as int),
        ensures
            top == arena@.root(i as int),
    {
        let mut at = i;
        loop
            invariant
                arena.wf(),
                arena@.live(at as int),
                arena@.root(at as int) == arena@.root(i as int),
            decreases arena@.depth(at as int),
        {
            proof {
                lemma_root(arena@, at as int);
            }
            match Self::parent_of(arena, at) {
                Some(q) => {
                    proof {
                        assert(arena.heap@.live(q as int) <==> arena@.live(q as int));
                    }
                    if arena.heap.slot_is_live(q) {
                        proof {
                            assert(arena@.attached(at as int));
                            assert(arena@.hangs(at as int));
                        }
                        at = q;
                    } else {
                        return at;
                    }
                },
                None => {
                    return at;
                },
            }
        }
    }

    /// A handle to the parent, if the node has one that is alive. The
    /// parent field is read through a shared borrow and upgraded.
    pub fn parent(arena: &mut TreeArena<T>, node: &RefCounted<TreeNode<T>>) -> (p: Option<RefCounted<TreeNode<T>>>)
        requires
            old(arena).wf(),
            old(arena)@.live(node.id()),
            old(arena)@.parent(node.id()) matches Some(q) ==> old(arena)@.strong(q) < usize::MAX,
        ensures
            final(arena).wf(),
            p is Some <==> old(arena)@.attached(node.id()),
            p matches Some(h) ==> old(arena)@.parent(node.id()) == Some(h.id()) && final(arena)@ == old(arena)@.share(
                h.id(),
            ),
            p is None ==> final(arena)@ == old(arena)@,
    {
        let ghost before = arena@;
        match Self::parent_slot(arena, node) {
            Some(q) => {
                let up = arena.heap.upgrade_slot(q);
                if up.is_some() {
                    arena.trees = Ghost(before.share(q as int));
                    proof {
                        lemma_share(before, q as int);
                        lemma_agree_share(old(arena).heap@, before, q as int);
                    }
                }
                up
            },
            None => None,
        }
    }

    /// Lends the child list of a live node out for reading. While the
    /// guard is outstanding the list cannot change: attaching to the node,
    /// and detaching from it, are refused.
    pub fn borrow_children(arena: &mut TreeArena<T>, node: &RefCounted<TreeNode<T>>) -> (guard: SharedGuard)
        requires
            old(arena).wf(),
            old(arena)@.live(node.id()),
            old(arena)@.nodes[node.id()].children_state.shared() < usize::MAX,
        ensures
            final(arena).wf(),
            final(arena)@ == old(arena)@.lend(node.id()),
    {
        let ghost before = arena@;
        let ghost id = node.id();
        let payload = arena.heap.slot_value_mut(node.slot());
        let r = payload.children.borrow();
        arena.trees = Ghost(before.lend(id));
        proof {
            let state = before.nodes[id].children_state.acquire_shared();
            lemma_with_children_state(before, id, state);
            lemma_agree_store(
                old(arena).heap@,
                before,
                id,
                arena.heap@.value(id),
                TreeView { children_state: state, ..before.nodes[id] },
            );
        }
        r.unwrap()
    }

    /// Gives a guard of the child list back.
    pub fn release_children(arena: &mut TreeArena<T>, node: &RefCounted<TreeNode<T>>, guard: SharedGuard)
        requires
            old(arena).wf(),
            old(arena)@.live(node.id()),
            old(arena)@.nodes[node.id()].children_state.shared() >= 1,
        ensures
            final(arena).wf(),
            final(arena)@ == old(arena)@.unlend(node.id()),
    {
        let ghost before = arena@;
        let ghost id = node.id();
        let payload = arena.heap.slot_value_mut(node.slot());
        payload.children.release(guard);
        arena.trees = Ghost(before.unlend(id));
        proof {
            let state = before.nodes[id].children_state.release_shared();
            lemma_with_children_state(before, id, state);
            lemma_agree_store(
                old(arena).heap@,
                before,
                id,
                arena.heap@.value(id),
                TreeView { children_state: state, ..before.nodes[id] },
            );
        }
    }

    /// Number of children, read under a guard.
    pub fn child_count(arena: &TreeArena<T>, node: &RefCounted<TreeNode<T>>, guard: &SharedGuard) -> (n: usize)
        requires
            arena.wf(),
            arena@.live(node.id()),
            arena@.nodes[node.id()].children_state.shared() >= 1,
        ensures
            n == arena@.children(node.id()).len(),
    {
        node.get(&arena.heap).children.get(guard).len()
    }

    /// The handle at place `i` of the child list, read under a guard. It
    /// stays in the list: the reference is good for reading the child.
    pub fn child_at<'a>(
        arena: &'a TreeArena<T>,
        node: &RefCounted<TreeNode<T>>,
        guard: &SharedGuard,
        i: usize,
    ) -> (child: &'a RefCounted<TreeNode<T>>)
        requires
            arena.wf(),
            arena@.live(node.id()),
            arena@.nodes[node.id()].children_state.shared() >= 1,
            i < arena@.children(node.id()).len(),
        ensures
            child.id() == arena@.children(node.id())[i as int],
            arena@.live(child.id()),
    {
        &node.get(&arena.heap).children.get(guard)[i]
    }
}

impl<T> TreeNode<T> {
    /// Handles to the children, in order. Each is a new strong handle:
    /// the caller owns them, and the child list keeps its own.
    pub fn children(arena: &mut TreeArena<T>, node: &RefCounted<TreeNode<T>>) -> (kids: Vec<RefCounted<TreeNode<T>>>)
        requires
            old(arena).wf(),
            old(arena)@.live(node.id()),
            forall|i: int|
                0 <= i < old(arena)@.children(node.id()).len() ==> old(arena)@.strong(
                    #[trigger] old(arena)@.children(node.id())[i],
                ) < usize::MAX,
        ensures
            final(arena).wf(),
            Self::ids(kids@) == old(arena)@.children(node.id()),
            final(arena)@ == old(arena)@.share_each(old(arena)@.children(node.id())),
    {
        let ghost before = arena@;
        let ghost id = node.id();
        let ghost all = before.children(id);
        let n = node.get(&arena.heap).children.read().unwrap().len();
        let mut kids: Vec<RefCounted<TreeNode<T>>> = Vec::new();
        let mut i: usize = 0;
        while i < n
            invariant
                arena.wf(),
                before.wf(),
                before.live(id),
                id == node.id(),
                all == before.children(id),
                n == all.len(),
                i <= n,
                arena@ == before.share_each(all.take(i as int)),
                Self::ids(kids@) == all.take(i as int),
                forall|j: int| 0 <= j < all.len() ==> before.strong(#[trigger] all[j]) < usize::MAX,
            decreases n - i,
        {
            let ghost cur = arena@;
            let ghost k = all[i as int];
            proof {
                assert(cur.strong(k) == before.strong(k));
            }
            let slot = node.get(&arena.heap).children.read().unwrap()[i].slot();
            let ghost heap_before = arena.heap@;
            let kid = arena.heap.retain_slot(slot);
            arena.trees = Ghost(cur.share(k));
            proof {
                lemma_share(cur, k);
                lemma_agree_share(heap_before, cur, k);
                let seen = all.take(i as int);
                let more = all.take(i + 1);
                assert(cur.share(k) =~= before.share_each(more)) by {
                    assert forall|x: int| more.contains(x) <==> seen.contains(x) || x == k by {
                        if x == k {
                            assert(more[i as int] == x);
                        }
                    }
                }
                assert(Self::ids(kids@.push(kid)) =~= all.take(i + 1)) by {
                    assert(seen.len() == i);
                }
            }
            kids.push(kid);
            i = i + 1;
        }
        kids
    }

    /// Makes `child` the last child of `parent`. The child's parent field
    /// is set, through an exclusive borrow, to a weak handle to `parent`;
    /// then the handle `child` is pushed, through an exclusive borrow, onto
    /// the child list of `parent`. So the parent gains a weak handle and
    /// no strong count changes.
    ///
    /// A child that a live parent still holds must be detached first; a
    /// child that is `parent` itself or a node above it would close the
    /// tree into a cycle; and a child list that is lent out cannot change.
    /// All three are refused: nothing changes, and the handle comes back
    /// with the reason. The walk to the top of the parent's tree takes as
    /// many steps as the parent is deep.
    pub fn attach_child(
        arena: &mut TreeArena<T>,
        parent: &RefCounted<TreeNode<T>>,
        child: RefCounted<TreeNode<T>>,
    ) -> (r: Result<(), (TreeError, RefCounted<TreeNode<T>>)>)
        requires
            old(arena).wf(),
            old(arena)@.handles(parent.id()) >= 1,
            old(arena)@.handles(child.id()) >= 1,
            parent.id() == child.id() ==> old(arena)@.handles(child.id()) >= 2,
            old(arena)@.weak(parent.id()) < usize::MAX,
        ensures
            final(arena).wf(),
            match r {
                Ok(_) => {
                    &&& old(arena)@.attach_error(parent.id(), child.id()) is None
                    &&& final(arena)@ == old(arena)@.attach(parent.id(), child.id())
                    &&& final(arena)@.parent(child.id()) == Some(parent.id())
                    &&& final(arena)@.children(parent.id()) == old(arena)@.children(parent.id()).push(child.id())
                    &&& final(arena)@.weak(parent.id()) == old(arena)@.weak(parent.id()) + 1
                    &&& forall|x: int| #[trigger] final(arena)@.strong(x) == old(arena)@.strong(x)
                },
                Err((e, back)) => {
                    &&& old(arena)@.attach_error(parent.id(), child.id()) == Some(e)
                    &&& back.id() == child.id()
                    &&& final(arena)@ == old(arena)@
                },
            },
    {
        let ghost before = arena@;
        let ghost h0 = arena.heap@;
        let ghost p = parent.id();
        let ghost c = child.id();
        proof {
            assert(before.live(p) && before.live(c));
            assert(h0.live(p) <==> before.live(p));
            assert(h0.live(c) <==> before.live(c));
            assert(before.node_wf(p));
            assert(before.node_wf(c));
        }
        let attached = match Self::parent_slot(arena, &child) {
            Some(q) => {
                proof {
                    assert(h0.live(q as int) <==> before.live(q as int));
                }
                arena.heap.slot_is_live(q)
            },
            None => false,
        };
        if attached {
            return Err((TreeError::AlreadyAttached, child));
        }
        if Self::root_slot(arena, parent.slot()) == child.slot() {
            return Err((TreeError::WouldCycle, child));
        }
        let lent = match parent.get(&arena.heap).children.borrow_state() {
            BorrowState::Unborrowed => false,
            _ => true,
        };
        if lent {
            return Err((TreeError::BorrowConflict, child));
        }
        proof {
            assert(h0.holds(p) <==> before.recorded(p));
        }
        let weak = parent.downgrade(&mut arena.heap);
        let payload = arena.heap.slot_value_mut(child.slot());
        let guard = payload.parent.borrow_mut().unwrap();
        let link = payload.parent.get_mut(&guard);
        let stale = link.take();
        *link = Some(weak);
        payload.parent.release_mut(guard);
        match stale {
            Some(w) => {
                proof {
                    assert(h0.value(c).shows(before.nodes[c]));
                    if w.target() is Some {
                        let q = w.target()->0;
                        assert(before.parent(c) == Some(q));
                        assert(before.recorded(q));
                        assert(before.referrers[q].contains(c) <==> before.parent(c) == Some(q));
                        assert(h0.holds(q) <==> before.recorded(q));
                    }
                }
                w.release(&mut arena.heap);
            },
            None => {},
        }
        let payload = arena.heap.slot_value_mut(parent.slot());
        let ghost kids = payload.children.value()@;
        let guard = payload.children.borrow_mut().unwrap();
        payload.children.get_mut(&guard).push(child);
        payload.children.release_mut(guard);
        arena.trees = Ghost(before.attach(p, c));
        proof {
            let next = before.attach(p, c);
            let h4 = arena.heap@;
            lemma_attach(before, p, c);
            lemma_forget_parent(before, c);
            assert(Self::ids(kids.push(child)) =~= Self::ids(kids).push(c));
            assert forall|x: int| h4.holds(x) <==> #[trigger] next.recorded(x) by {
                assert(h0.holds(x) <==> before.recorded(x));
            }
            assert forall|x: int| h4.live(x) <==> #[trigger] next.live(x) by {
                assert(h0.live(x) <==> before.live(x));
            }
            assert forall|x: int| #[trigger] next.recorded(x) implies h4.entries[x].strong == next.strong(x)
                && h4.entries[x].weak == next.weak(x) by {
                assert(h0.holds(x) <==> before.recorded(x));
                if before.recorded(x) {
                    assert(next.strong(x) == before.strong(x));
                }
            }
            assert forall|x: int| #[trigger] next.live(x) implies h4.value(x).shows(next.nodes[x]) by {
                assert(before.live(x));
                assert(h0.live(x) <==> before.live(x));
            }
        }
        Ok(())
    }
}

impl<T> TreeNode<T> {
    /// Takes `child` out of its parent's child list and empties its parent
    /// field. The strong handle that the list held is returned; for a
    /// child that no live parent held there is none, and only the parent
    /// field is emptied. No strong count changes.
    ///
    /// While the child list that holds the child is lent out it cannot
    /// change: the call is refused and nothing changes.
    pub fn detach(arena: &mut TreeArena<T>, child: &RefCounted<TreeNode<T>>) -> (r: Result<
        Option<RefCounted<TreeNode<T>>>,
        TreeError,
    >)
        requires
            old(arena).wf(),
            old(arena)@.live(child.id()),
        ensures
            final(arena).wf(),
            match r {
                Ok(held) => {
                    &&& old(arena)@.detach_error(child.id()) is None
                    &&& final(arena)@ == old(arena)@.detach(child.id())
                    &&& final(arena)@.parent(child.id()) is None
                    &&& held is Some <==> old(arena)@.attached(child.id())
                    &&& held matches Some(h) ==> h.id() == child.id()
                    &&& forall|x: int| #[trigger] final(arena)@.strong(x) == old(arena)@.strong(x)
                },
                Err(e) => {
                    &&& old(arena)@.detach_error(child.id()) == Some(e)
                    &&& final(arena)@ == old(arena)@
                },
            },
    {
        let ghost before = arena@;
        let ghost h0 = arena.heap@;
        let ghost c = child.id();
        proof {
            assert(h0.live(c) <==> before.live(c));
            assert(before.node_wf(c));
            lemma_detach(before, c);
        }
        let q = match Self::parent_slot(arena, child) {
            Some(q) => q,
            None => {
                return Ok(None);
            },
        };
        proof {
            assert(before.recorded(q as int));
            assert(h0.holds(q as int) <==> before.recorded(q as int));
            assert(h0.live(q as int) <==> before.live(q as int));
            assert(before.referrers[q as int].contains(c) <==> before.parent(c) == Some(q as int));
        }
        let mut held: Option<RefCounted<TreeNode<T>>> = None;
        if arena.heap.slot_is_live(q) {
            let ghost kids = before.children(q as int);
            proof {
                assert(before.attached(c));
                assert(before.node_wf(q as int));
                assert(h0.value(q as int).shows(before.nodes[q as int]));
                assert(kids.contains(c));
            }
            let list = arena.heap.slot_value(q);
            match list.children.borrow_state() {
                BorrowState::Unborrowed => {},
                _ => {
                    return Err(TreeError::BorrowConflict);
                },
            }
            let handles = list.children.read().unwrap();
            let mut i: usize = 0;
            while i < handles.len() && handles[i].slot() != child.slot()
                invariant
                    i <= handles.len(),
                    Self::ids(handles@) == kids,
                    c == child.id(),
                    forall|j: int| 0 <= j < i ==> kids[j] != c,
                decreases handles.len() - i,
            {
                i = i + 1;
            }
            proof {
                if i >= handles.len() {
                    let j = choose|j: int| 0 <= j < kids.len() && kids[j] == c;
                    assert(kids[j] != c);
                }
                assert(kids[i as int] == c);
                lemma_without(kids, i as int);
            }
            let payload = arena.heap.slot_value_mut(q);
            let ghost stored = payload.children.value()@;
            let guard = payload.children.borrow_mut().unwrap();
            let h = payload.children.get_mut(&guard).remove(i);
            payload.children.release_mut(guard);
            proof {
                assert(Self::ids(stored.remove(i as int)) =~= kids.remove(i as int));
            }
            held = Some(h);
        }
        let payload = arena.heap.slot_value_mut(child.slot());
        let guard = payload.parent.borrow_mut().unwrap();
        let stale = payload.parent.get_mut(&guard).take();
        payload.parent.release_mut(guard);
        match stale {
            Some(w) => {
                w.release(&mut arena.heap);
            },
            None => {},
        }
        arena.trees = Ghost(before.detach(c));
        proof {
            let next = before.detach(c);
            let h4 = arena.heap@;
            assert forall|x: int| h4.holds(x) <==> #[trigger] next.recorded(x) by {
                assert(h0.holds(x) <==> before.recorded(x));
            }
            assert forall|x: int| h4.live(x) <==> #[trigger] next.live(x) by {
                assert(h0.live(x) <==> before.live(x));
            }
            assert forall|x: int| #[trigger] next.recorded(x) implies h4.entries[x].strong == next.strong(x)
                && h4.entries[x].weak == next.weak(x) by {
                assert(h0.holds(x) <==> before.recorded(x));
                if before.recorded(x) {
                    assert(next.strong(x) == before.strong(x));
                }
            }
            assert forall|x: int| #[trigger] next.live(x) implies h4.value(x).shows(next.nodes[x]) by {
                assert(before.live(x));
                assert(h0.live(x) <==> before.live(x));
            }
        }
        Ok(held)
    }

    /// Gives a handle up. A node whose last strong handle goes is taken
    /// away: its value is dropped, the weak handle in its parent field is
    /// given up, and so is each strong handle of its child list, with all
    /// that follows for the children. Every node that is still alive keeps
    /// its value, its parent field and its child list, and every other
    /// handle is still good.
    pub fn release(arena: &mut TreeArena<T>, node: RefCounted<TreeNode<T>>)
        requires
            old(arena).wf(),
            old(arena)@.handles(node.id()) >= 1,
        ensures
            final(arena).wf(),
            final(arena)@ == old(arena)@.release(node.id()),
            final(arena)@.kept_from(old(arena)@),
            forall|x: int|
                #[trigger] final(arena)@.handles(x) == old(arena)@.handles(x) - if x == node.id() {
                    1int
                } else {
                    0int
                },
            final(arena)@.live(node.id()) <==> old(arena)@.strong(node.id()) > 1,
    {
        let ghost first = node.id();
        let ghost target = arena@.release(first);
        proof {
            assert(arena@.pending_ok(seq![first]));
            lemma_release(arena@, first);
        }
        let mut pending: Vec<RefCounted<TreeNode<T>>> = Vec::new();
        pending.push(node);
        assert(Self::ids(pending@) =~= seq![first]);
        while pending.len() > 0
            invariant
                arena.wf(),
                arena@.pending_ok(Self::ids(pending@)),
                arena@.drain(Self::ids(pending@)) == target,
            decreases arena@.nodes.dom().len(), pending.len(),
        {
            let ghost cur = arena@;
            let ghost h0 = arena.heap@;
            let ghost order = Self::ids(pending@);
            proof {
                lemma_pending_step(cur, order);
            }
            let handle = pending.pop().unwrap();
            let ghost id = handle.id();
            let ghost rest = order.drop_last();
            proof {
                assert(id == order.last());
                assert(Self::ids(pending@) =~= rest);
                assert(cur.live(id));
                assert(h0.live(id) <==> cur.live(id));
                assert(h0.holds(id) <==> cur.recorded(id));
                assert(cur.node_wf(id));
                assert(h0.value(id).shows(cur.nodes[id]));
            }
            match handle.release(&mut arena.heap) {
                None => {
                    arena.trees = Ghost(cur.unshare(id));
                    proof {
                        let next = cur.unshare(id);
                        let h1 = arena.heap@;
                        lemma_unshare(cur, id);
                        assert forall|x: int| h1.holds(x) <==> #[trigger] next.recorded(x) by {
                            assert(h0.holds(x) <==> cur.recorded(x));
                        }
                        assert forall|x: int| h1.live(x) <==> #[trigger] next.live(x) by {
                            assert(h0.live(x) <==> cur.live(x));
                        }
                        assert forall|x: int| #[trigger] next.recorded(x) implies h1.entries[x].strong
                            == next.strong(x) && h1.entries[x].weak == next.weak(x) by {
                            assert(cur.recorded(x));
                            assert(next.attached(x) == cur.attached(x));
                        }
                        assert forall|x: int| #[trigger] next.live(x) implies h1.value(x).shows(next.nodes[x]) by {
                            assert(cur.live(x));
                        }
                    }
                },
                Some(payload) => {
                    let TreeNode { value: _, parent, children } = payload;
                    match parent.into_inner() {
                        Some(w) => {
                            proof {
                                if w.target() is Some {
                                    let q = w.target()->0;
                                    assert(cur.parent(id) == Some(q));
                                    assert(cur.recorded(q));
                                    assert(cur.referrers[q].contains(id) <==> cur.parent(id) == Some(q));
                                    assert(h0.holds(q) <==> cur.recorded(q));
                                }
                            }
                            w.release(&mut arena.heap);
                        },
                        None => {},
                    }
                    let mut kids = children.into_inner();
                    proof {
                        assert(Self::ids(pending@ + kids@) =~= rest + cur.children(id));
                    }
                    pending.append(&mut kids);
                    arena.trees = Ghost(cur.teardown(id));
                    proof {
                        let next = cur.teardown(id);
                        let cleared = cur.forget_parent(id);
                        let h2 = arena.heap@;
                        lemma_teardown(cur, id);
                        lemma_forget_parent(cur, id);
                        assert(cleared.recorded(id));
                        assert forall|x: int| h2.holds(x) <==> #[trigger] next.recorded(x) by {
                            assert(h0.holds(x) <==> cur.recorded(x));
                        }
                        assert forall|x: int| h2.live(x) <==> #[trigger] next.live(x) by {
                            assert(h0.live(x) <==> cur.live(x));
                        }
                        assert forall|x: int| #[trigger] next.recorded(x) implies h2.entries[x].strong
                            == next.strong(x) && h2.entries[x].weak == next.weak(x) by {
                            assert(h0.holds(x) <==> cur.recorded(x));
                            assert(cur.recorded(x));
                            if cur.children(id).contains(x) {
                                assert(!next.attached(x));
                            } else if next.live(x) {
                                assert(cur.attached(x) ==> next.attached(x)) by {
                                    if cur.attached(x) {
                                        let px = cur.parent(x)->0;
                                        assert(cur.children(px).contains(x));
                                    }
                                }
                            }
                        }
                        assert forall|x: int| #[trigger] next.live(x) implies h2.value(x).shows(next.nodes[x]) by {
                            assert(cur.live(x));
                            assert(h0.live(x) <==> cur.live(x));
                        }
                        assert(next.nodes.dom().len() < cur.nodes.dom().len());
                    }
                },
            }
        }
        proof {
            assert(Self::ids(pending@) =~= Seq::<int>::empty());
        }
    }
}

} // verus!
