use refgraph::cell::{BorrowConflict, BorrowState, MutCell};
use refgraph::heap::{Heap, RefCounted, WeakRef};
use refgraph::list::{ListArena, SharedList};
use refgraph::tree::{TreeArena, TreeError, TreeNode};

#[test]
fn strong_count_follows_clones_and_drops() {
    let mut heap: Heap<String> = Heap::new();
    let a = RefCounted::new(&mut heap, String::from("shared"));
    assert_eq!(a.strong_count(&heap), 1);
    assert_eq!(a.weak_count(&heap), 0);
    let b = a.clone(&mut heap);
    let c = a.clone(&mut heap);
    assert_eq!(a.strong_count(&heap), 3);
    assert!(a.ptr_eq(&b));
    assert_eq!(c.release(&mut heap), None);
    assert_eq!(a.strong_count(&heap), 2);
    assert_eq!(b.get(&heap), "shared");
    assert_eq!(b.release(&mut heap), None);
    assert_eq!(a.strong_count(&heap), 1);
}

#[test]
fn last_strong_handle_hands_the_value_out_once() {
    let mut heap: Heap<String> = Heap::new();
    let a = RefCounted::new(&mut heap, String::from("once"));
    let b = a.clone(&mut heap);
    let probe = b.clone(&mut heap);
    assert_eq!(a.release(&mut heap), None);
    assert_eq!(b.release(&mut heap), None);
    assert_eq!(probe.strong_count(&heap), 1);
    assert_eq!(probe.release(&mut heap), Some(String::from("once")));
}

#[test]
fn upgrade_succeeds_while_a_strong_handle_lives() {
    let mut heap: Heap<u32> = Heap::new();
    let a = RefCounted::new(&mut heap, 41);
    let w = a.downgrade(&mut heap);
    assert_eq!(a.weak_count(&heap), 1);
    let up = w.upgrade(&mut heap).expect("value is alive");
    assert_eq!(*up.get(&heap), 41);
    assert!(up.ptr_eq(&a));
    assert_eq!(a.strong_count(&heap), 2);
    up.release(&mut heap);
    a.release(&mut heap);
    w.release(&mut heap);
}

#[test]
fn upgrade_fails_for_good_once_the_value_is_gone() {
    let mut heap: Heap<u32> = Heap::new();
    let a = RefCounted::new(&mut heap, 7);
    let w1 = a.downgrade(&mut heap);
    let w2 = w1.clone(&mut heap);
    assert_eq!(a.release(&mut heap), Some(7));
    assert!(w1.upgrade(&mut heap).is_none());
    assert!(w2.upgrade(&mut heap).is_none());
    assert!(w1.upgrade(&mut heap).is_none());
    // a new allocation does not wake the old one up
    let other = RefCounted::new(&mut heap, 8);
    assert!(w1.upgrade(&mut heap).is_none());
    assert_eq!(*other.get(&heap), 8);
    w1.release(&mut heap);
    w2.release(&mut heap);
    other.release(&mut heap);
}

#[test]
fn empty_weak_handle_names_nothing() {
    let mut heap: Heap<u32> = Heap::new();
    let w: WeakRef<u32> = WeakRef::new();
    assert!(w.is_dangling());
    assert!(w.upgrade(&mut heap).is_none());
}

#[test]
fn reclaimed_slot_is_used_again() {
    let mut heap: Heap<u32> = Heap::new();
    assert_eq!((heap.slots(), heap.vacant()), (0, 0));
    let a = RefCounted::new(&mut heap, 1);
    let keep = RefCounted::new(&mut heap, 2);
    assert_eq!((heap.slots(), heap.vacant()), (2, 0));
    assert_eq!(a.release(&mut heap), Some(1));
    assert_eq!((heap.slots(), heap.vacant()), (2, 1));
    let b = RefCounted::new(&mut heap, 3);
    assert_eq!((heap.slots(), heap.vacant()), (2, 0));
    assert!(!b.ptr_eq(&keep));
    assert_eq!(*b.get(&heap), 3);
    assert_eq!(*keep.get(&heap), 2);
    assert_eq!(b.strong_count(&heap), 1);
}

#[test]
fn record_outlives_the_value_while_a_weak_handle_is_left() {
    let mut heap: Heap<u32> = Heap::new();
    let a = RefCounted::new(&mut heap, 1);
    let w = a.downgrade(&mut heap);
    assert_eq!(a.release(&mut heap), Some(1));
    // the value is gone, the record is not: the slot is not vacant yet
    assert_eq!((heap.slots(), heap.vacant()), (1, 0));
    let other = RefCounted::new(&mut heap, 2);
    assert_eq!(heap.slots(), 2);
    w.release(&mut heap);
    assert_eq!((heap.slots(), heap.vacant()), (2, 1));
    assert_eq!(*other.get(&heap), 2);
}

#[test]
fn exclusive_borrow_excludes_every_other() {
    let mut cell = MutCell::new(5);
    let guard = cell.borrow_mut().expect("nothing is lent out");
    assert_eq!(cell.borrow_state(), BorrowState::ExclusivelyBorrowed);
    assert_eq!(cell.borrow_mut().err(), Some(BorrowConflict));
    assert_eq!(cell.borrow().err(), Some(BorrowConflict));
    assert!(cell.read().is_err());
    *cell.get_mut(&guard) += 10;
    assert_eq!(*cell.peek(&guard), 15);
    cell.release_mut(guard);
    assert_eq!(cell.borrow_state(), BorrowState::Unborrowed);
    assert_eq!(cell.read(), Ok(&15));
}

#[test]
fn shared_borrows_do_not_conflict() {
    let mut cell = MutCell::new(String::from("text"));
    let g1 = cell.borrow().expect("first shared borrow");
    let g2 = cell.borrow().expect("second shared borrow");
    assert_eq!(cell.borrow_state(), BorrowState::SharedBorrowed(2));
    assert_eq!(cell.get(&g1), "text");
    assert_eq!(cell.get(&g2), "text");
    assert_eq!(cell.borrow_mut().err(), Some(BorrowConflict));
    cell.release(g1);
    assert_eq!(cell.borrow_state(), BorrowState::SharedBorrowed(1));
    assert_eq!(cell.borrow_mut().err(), Some(BorrowConflict));
    cell.release(g2);
    assert_eq!(cell.borrow_state(), BorrowState::Unborrowed);
    assert!(cell.borrow_mut().is_ok());
    assert_eq!(cell.into_inner(), "text");
}

#[test]
fn shared_list_scenario() {
    let mut arena: ListArena<i32> = ListArena::new();
    let list0 = SharedList::empty(&mut arena);
    let list1 = list0.push_front(&mut arena, 1);
    let list2 = list1.push_front(&mut arena, 2);
    assert_eq!(list2.to_vec(&arena), vec![&2, &1]);
    assert_eq!(list1.to_vec(&arena), vec![&1]);
    assert!(list0.to_vec(&arena).is_empty());
    assert!(list0.is_empty(&arena));
    assert_eq!(list2.first(&arena), Some(&2));

    // the node holding 1 is held by list1 and by the node holding 2
    assert_eq!(list1.strong_count(&arena), 2);
    assert_eq!(list0.strong_count(&arena), 2);
    list2.release(&mut arena);
    assert_eq!(list1.strong_count(&arena), 1);
    assert_eq!(list1.to_vec(&arena), vec![&1]);
    assert_eq!(list0.strong_count(&arena), 2);
    // only now does the node holding 1 go, and with it its link to list0
    list1.release(&mut arena);
    assert_eq!(list0.strong_count(&arena), 1);
    assert!(list0.to_vec(&arena).is_empty());
}

#[test]
fn push_front_is_persistent_and_shares_the_suffix() {
    let mut arena: ListArena<&str> = ListArena::new();
    let nil = SharedList::empty(&mut arena);
    let base = nil.push_front(&mut arena, "c").push_front(&mut arena, "b");
    let left = base.push_front(&mut arena, "x");
    let right = base.push_front(&mut arena, "y");
    assert_eq!(base.to_vec(&arena), vec![&"b", &"c"]);
    assert_eq!(left.to_vec(&arena), vec![&"x", &"b", &"c"]);
    assert_eq!(right.to_vec(&arena), vec![&"y", &"b", &"c"]);
    assert_eq!(left.to_vec(&arena)[1..], right.to_vec(&arena)[1..]);
    assert_eq!(base.strong_count(&arena), 3);
    let rest = left.rest(&mut arena).expect("left has a first value");
    assert_eq!(rest.to_vec(&arena), base.to_vec(&arena));
    assert_eq!(base.strong_count(&arena), 4);
}

#[test]
fn tail_lends_the_link_and_counts_nothing() {
    let mut arena: ListArena<&str> = ListArena::new();
    let nil = SharedList::empty(&mut arena);
    let base = nil.push_front(&mut arena, "b");
    let left = base.push_front(&mut arena, "x");
    let right = base.push_front(&mut arena, "y");
    assert_eq!(base.strong_count(&arena), 3);
    assert_eq!(nil.strong_count(&arena), 2);

    let mut link = left.tail(&arena).expect("left has a rest");
    assert!(link.is_at(&base));
    assert!(!link.is_at(&left));
    assert!(right.tail(&arena).expect("right has a rest").is_at(&base));
    assert_eq!(link.next(&arena), Some(&"b"));
    assert!(link.is_at(&nil));
    assert_eq!(link.next(&arena), None);
    assert!(link.is_at(&nil));
    assert!(nil.tail(&arena).is_none());
    assert!(base.tail(&arena).expect("base has a rest").is_at(&nil));

    // nothing was counted along the way
    assert_eq!(base.strong_count(&arena), 3);
    assert_eq!(nil.strong_count(&arena), 2);
    assert_eq!(left.strong_count(&arena), 1);
}

#[test]
fn cursor_is_lazy_and_starts_over() {
    let mut arena: ListArena<u8> = ListArena::new();
    let nil = SharedList::empty(&mut arena);
    let one = nil.push_front(&mut arena, 1);
    let two = one.push_front(&mut arena, 2);
    let mut cursor = two.iter();
    assert_eq!(cursor.next(&arena), Some(&2));
    assert_eq!(cursor.next(&arena), Some(&1));
    assert_eq!(cursor.next(&arena), None);
    assert_eq!(cursor.next(&arena), None);
    let mut again = two.iter();
    assert_eq!(again.next(&arena), Some(&2));
}

#[test]
fn tree_scenario() {
    let mut arena: TreeArena<i32> = TreeArena::new();
    let root = TreeNode::new(&mut arena, 1);
    let leaf = TreeNode::new(&mut arena, 2);
    assert!(TreeNode::parent(&mut arena, &leaf).is_none());
    let held = TreeNode::share(&mut arena, &leaf);
    assert!(TreeNode::attach_child(&mut arena, &root, held).is_ok());

    let kids = TreeNode::children(&mut arena, &root);
    assert_eq!(kids.len(), 1);
    assert!(kids[0].ptr_eq(&leaf));
    for kid in kids {
        TreeNode::release(&mut arena, kid);
    }
    let parent = TreeNode::parent(&mut arena, &leaf).unwrap();
    assert_eq!(*TreeNode::value(&arena, &parent), 1);
    assert!(parent.ptr_eq(&root));
    TreeNode::release(&mut arena, parent);

    assert_eq!(TreeNode::strong_count(&arena, &root), 1);
    assert_eq!(TreeNode::weak_count(&arena, &root), 1);
    assert_eq!(TreeNode::strong_count(&arena, &leaf), 2);
}

#[test]
fn dropping_the_parent_leaves_the_child_without_one() {
    let mut arena: TreeArena<&str> = TreeArena::new();
    let leaf = TreeNode::new(&mut arena, "leaf");
    let branch = TreeNode::new(&mut arena, "branch");
    let held = TreeNode::share(&mut arena, &leaf);
    assert!(TreeNode::attach_child(&mut arena, &branch, held).is_ok());
    assert_eq!(TreeNode::strong_count(&arena, &leaf), 2);
    assert_eq!(TreeNode::weak_count(&arena, &branch), 1);

    TreeNode::release(&mut arena, branch);
    assert!(TreeNode::parent(&mut arena, &leaf).is_none());
    assert_eq!(TreeNode::strong_count(&arena, &leaf), 1);
    assert_eq!(TreeNode::weak_count(&arena, &leaf), 0);
    assert_eq!(*TreeNode::value(&arena, &leaf), "leaf");

    // the stale parent field does not stand in the way of a new parent
    let other = TreeNode::new(&mut arena, "other");
    let held = TreeNode::share(&mut arena, &leaf);
    assert!(TreeNode::attach_child(&mut arena, &other, held).is_ok());
    let parent = TreeNode::parent(&mut arena, &leaf).unwrap();
    assert_eq!(*TreeNode::value(&arena, &parent), "other");
}

#[test]
fn releasing_a_root_takes_the_subtree_that_nothing_else_holds() {
    let mut arena: TreeArena<u32> = TreeArena::new();
    let root = TreeNode::new(&mut arena, 0);
    let mid = TreeNode::new(&mut arena, 1);
    let low = TreeNode::new(&mut arena, 2);
    let kept = TreeNode::share(&mut arena, &low);
    assert!(TreeNode::attach_child(&mut arena, &mid, low).is_ok());
    assert!(TreeNode::attach_child(&mut arena, &root, mid).is_ok());
    assert_eq!(TreeNode::strong_count(&arena, &kept), 2);
    TreeNode::release(&mut arena, root);
    // root and mid are gone; low lives on through the handle that was kept
    assert_eq!(TreeNode::strong_count(&arena, &kept), 1);
    assert_eq!(*TreeNode::value(&arena, &kept), 2);
    assert!(TreeNode::parent(&mut arena, &kept).is_none());
}

#[test]
fn attaching_twice_needs_a_detach() {
    let mut arena: TreeArena<u32> = TreeArena::new();
    let a = TreeNode::new(&mut arena, 1);
    let b = TreeNode::new(&mut arena, 2);
    let c = TreeNode::new(&mut arena, 3);
    let c1 = TreeNode::share(&mut arena, &c);
    assert!(TreeNode::attach_child(&mut arena, &a, c1).is_ok());
    let c2 = TreeNode::share(&mut arena, &c);
    let (why, back) = TreeNode::attach_child(&mut arena, &b, c2).err().unwrap();
    assert_eq!(why, TreeError::AlreadyAttached);
    assert!(back.ptr_eq(&c));
    assert_eq!(TreeNode::strong_count(&arena, &c), 3);

    let from_list = TreeNode::detach(&mut arena, &c).unwrap().expect("c was attached");
    assert!(from_list.ptr_eq(&c));
    assert!(TreeNode::children(&mut arena, &a).is_empty());
    assert!(TreeNode::parent(&mut arena, &c).is_none());
    assert_eq!(TreeNode::weak_count(&arena, &a), 0);
    assert_eq!(TreeNode::strong_count(&arena, &c), 3);
    assert!(TreeNode::attach_child(&mut arena, &b, back).is_ok());
    assert_eq!(TreeNode::weak_count(&arena, &b), 1);
    assert!(TreeNode::detach(&mut arena, &a).unwrap().is_none());
}

#[test]
fn lent_child_list_refuses_changes() {
    let mut arena: TreeArena<u32> = TreeArena::new();
    let root = TreeNode::new(&mut arena, 1);
    let first = TreeNode::new(&mut arena, 2);
    let second = TreeNode::new(&mut arena, 3);
    let first_kept = TreeNode::share(&mut arena, &first);
    assert!(TreeNode::attach_child(&mut arena, &root, first).is_ok());

    let guard = TreeNode::borrow_children(&mut arena, &root);
    assert_eq!(TreeNode::child_count(&arena, &root, &guard), 1);
    let seen = TreeNode::child_at(&arena, &root, &guard, 0);
    assert_eq!(*TreeNode::value(&arena, seen), 2);
    let (why, second) = TreeNode::attach_child(&mut arena, &root, second).err().unwrap();
    assert_eq!(why, TreeError::BorrowConflict);
    assert_eq!(TreeNode::detach(&mut arena, &first_kept).err(), Some(TreeError::BorrowConflict));
    assert_eq!(TreeNode::weak_count(&arena, &root), 1);

    TreeNode::release_children(&mut arena, &root, guard);
    assert!(TreeNode::attach_child(&mut arena, &root, second).is_ok());
    assert_eq!(TreeNode::children(&mut arena, &root).len(), 2);
}

#[test]
fn cell_behind_several_handles_changes_for_all() {
    let mut heap: Heap<MutCell<i32>> = Heap::new();
    let value = RefCounted::new(&mut heap, MutCell::new(5));
    let a = value.clone(&mut heap);
    let b = value.clone(&mut heap);
    assert_eq!(value.strong_count(&heap), 3);

    let guard = value.borrow_mut(&mut heap).expect("nothing is lent out");
    assert_eq!(a.borrow_mut(&mut heap).err(), Some(BorrowConflict));
    assert_eq!(b.borrow(&mut heap).err(), Some(BorrowConflict));
    *value.write(&mut heap, &guard) += 10;
    value.end_borrow_mut(&mut heap, guard);

    let first = a.borrow(&mut heap).expect("no exclusive guard is out");
    let second = b.borrow(&mut heap).expect("shared borrows do not conflict");
    assert_eq!(*a.read(&heap, &first), 15);
    assert_eq!(*b.read(&heap, &second), 15);
    assert_eq!(value.get(&heap).borrow_state(), BorrowState::SharedBorrowed(2));
    assert_eq!(value.borrow_mut(&mut heap).err(), Some(BorrowConflict));
    a.end_borrow(&mut heap, first);
    b.end_borrow(&mut heap, second);
    assert_eq!(value.get(&heap).borrow_state(), BorrowState::Unborrowed);
    assert_eq!(value.strong_count(&heap), 3);
    assert!(value.borrow_mut(&mut heap).is_ok());
}

#[test]
fn a_node_is_never_hung_below_itself() {
    let mut arena: TreeArena<u32> = TreeArena::new();
    let top = TreeNode::new(&mut arena, 0);
    let mid = TreeNode::new(&mut arena, 1);
    let low = TreeNode::new(&mut arena, 2);
    let other = TreeNode::new(&mut arena, 3);
    let mid_held = TreeNode::share(&mut arena, &mid);
    let low_held = TreeNode::share(&mut arena, &low);
    assert!(TreeNode::attach_child(&mut arena, &top, mid_held).is_ok());
    assert!(TreeNode::attach_child(&mut arena, &mid, low_held).is_ok());

    // a node below itself
    let copy = TreeNode::share(&mut arena, &other);
    let (why, copy) = TreeNode::attach_child(&mut arena, &other, copy).err().unwrap();
    assert_eq!(why, TreeError::WouldCycle);
    TreeNode::release(&mut arena, copy);
    assert_eq!(TreeNode::strong_count(&arena, &other), 1);
    assert!(TreeNode::children(&mut arena, &other).is_empty());
    assert!(TreeNode::parent(&mut arena, &other).is_none());

    // the top of a tree below a node of that tree
    let copy = TreeNode::share(&mut arena, &top);
    let (why, copy) = TreeNode::attach_child(&mut arena, &low, copy).err().unwrap();
    assert_eq!(why, TreeError::WouldCycle);
    let (why, copy) = TreeNode::attach_child(&mut arena, &mid, copy).err().unwrap();
    assert_eq!(why, TreeError::WouldCycle);
    assert_eq!(TreeNode::weak_count(&arena, &low), 0);
    assert_eq!(TreeNode::strong_count(&arena, &top), 2);

    // below a node of another tree it may hang
    assert!(TreeNode::attach_child(&mut arena, &other, copy).is_ok());
    let parent = TreeNode::parent(&mut arena, &top).unwrap();
    assert!(parent.ptr_eq(&other));
    TreeNode::release(&mut arena, parent);
    // and then the new top may not hang below what was the top
    let copy = TreeNode::share(&mut arena, &other);
    let (why, copy) = TreeNode::attach_child(&mut arena, &low, copy).err().unwrap();
    assert_eq!(why, TreeError::WouldCycle);
    TreeNode::release(&mut arena, copy);

    // a node that is held by a live parent is refused for that, whatever hangs where
    let copy = TreeNode::share(&mut arena, &mid);
    let (why, copy) = TreeNode::attach_child(&mut arena, &low, copy).err().unwrap();
    assert_eq!(why, TreeError::AlreadyAttached);
    TreeNode::release(&mut arena, copy);

    // once it is detached, the tree below it is a tree of its own
    let from_list = TreeNode::detach(&mut arena, &mid).unwrap().expect("mid was attached");
    TreeNode::release(&mut arena, from_list);
    let copy = TreeNode::share(&mut arena, &other);
    assert!(TreeNode::attach_child(&mut arena, &low, copy).is_ok());
    let copy = TreeNode::share(&mut arena, &mid);
    let (why, _copy) = TreeNode::attach_child(&mut arena, &top, copy).err().unwrap();
    assert_eq!(why, TreeError::WouldCycle);
}

#[test]
fn releasing_every_handle_empties_the_arena() {
    let mut arena: TreeArena<u32> = TreeArena::new();
    let top = TreeNode::new(&mut arena, 0);
    let mid = TreeNode::new(&mut arena, 1);
    let low = TreeNode::new(&mut arena, 2);
    let probe = TreeNode::share(&mut arena, &low);
    assert!(TreeNode::attach_child(&mut arena, &mid, low).is_ok());
    assert!(TreeNode::attach_child(&mut arena, &top, mid).is_ok());
    TreeNode::release(&mut arena, top);
    assert_eq!(TreeNode::strong_count(&arena, &probe), 1);
    assert_eq!(TreeNode::weak_count(&arena, &probe), 0);
    assert!(TreeNode::parent(&mut arena, &probe).is_none());
}
