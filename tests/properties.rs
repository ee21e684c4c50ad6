use hym::linear::box_linked_list as boxed;
use hym::linear::linked_list as shared;
use hym::linear::nonull_linked_list as arena;
use hym::render::Render;

#[test]
fn push_head_three_then_display() {
    let mut b = boxed::LinkedList::new();
    let mut s = shared::LinkedList::new();
    let mut a = arena::LinkedList::new();
    for v in [1, 2, 3] {
        b.push_head(v);
        s.push_head(&v);
        a.push_head(v);
    }
    assert_eq!(b.to_display_string(), "(3 -> 2 -> 1)");
    assert_eq!(s.to_display_string(), "(3 -> 2 -> 1)");
    assert_eq!(a.to_display_string(), "(3 -> 2 -> 1)");
}

#[test]
fn insert_in_the_middle_then_display() {
    let mut b = boxed::LinkedList::from_iter(vec![3, 2, 1]);
    let mut s = shared::LinkedList::from_vec(vec![3, 2, 1]);
    let mut a = arena::LinkedList::from_iter(vec![3, 2, 1]);
    assert_eq!(b.insert(4, 2), Ok(()));
    assert_eq!(s.insert(&4, 2), Ok(()));
    assert_eq!(a.insert(4, 2), Ok(()));
    assert_eq!(b.to_display_string(), "(3 -> 2 -> 4 -> 1)");
    assert_eq!(s.to_display_string(), "(3 -> 2 -> 4 -> 1)");
    assert_eq!(a.to_display_string(), "(3 -> 2 -> 4 -> 1)");
    assert_eq!(b.len(), 4);
    assert_eq!(s.len(), 4);
    assert_eq!(a.len(), 4);
}

#[test]
fn indices_of_a_repeated_value() {
    let b = boxed::LinkedList::from_iter(vec![1, 2, 3, 2]);
    let s = shared::LinkedList::from_vec(vec![1, 2, 3, 2]);
    let a = arena::LinkedList::from_iter(vec![1, 2, 3, 2]);
    assert_eq!(b.val2ix(&2), vec![1, 3]);
    assert_eq!(s.val2ix(&2), vec![1, 3]);
    assert_eq!(a.val2ix(&2), vec![1, 3]);
    assert_eq!(a.val2ix(&5), Vec::<usize>::new());
}

#[test]
fn remove_from_empty_lists() {
    let mut b: boxed::LinkedList<i32> = boxed::LinkedList::new();
    let mut s: shared::LinkedList<i32> = shared::LinkedList::new();
    let mut a: arena::LinkedList<i32> = arena::LinkedList::new();
    assert_eq!(b.remove(0), Err(boxed::LinkedListError::RemoveFromEmptyList));
    assert_eq!(s.remove(0), Err(shared::LinkedListError::RemoveFromEmptyList));
    assert_eq!(a.remove(0), Err(arena::LinkedListError::RemoveFromEmptyList));
    assert_eq!(s.remove(3), Err(shared::LinkedListError::RemoveFromEmptyList));
}

#[test]
fn pop_back_of_three() {
    let mut b = boxed::LinkedList::from_iter(vec![1, 2, 3]);
    let mut s = shared::LinkedList::from_vec(vec![1, 2, 3]);
    let mut a = arena::LinkedList::from_iter(vec![1, 2, 3]);
    assert_eq!(b.pop_back(), Ok(3));
    assert_eq!(s.pop_back(), Ok(3));
    assert_eq!(a.pop_back(), Ok(3));
    assert_eq!(b.to_display_string(), "(1 -> 2)");
    assert_eq!(s.to_display_string(), "(1 -> 2)");
    assert_eq!(a.to_display_string(), "(1 -> 2)");
}

#[test]
fn squaring_through_mutable_iterators() {
    let mut b = boxed::LinkedList::from_iter(vec![1, 2, 3, 4, 5]);
    let mut it = b.iter_mut();
    while let Some(v) = it.next() {
        *v *= *v;
    }
    assert_eq!(b.to_display_string(), "(1 -> 4 -> 9 -> 16 -> 25)");

    let mut a = arena::LinkedList::from_iter(vec![1, 2, 3, 4, 5]);
    let mut it = a.iter_mut();
    while let Some(v) = it.next() {
        *v *= *v;
    }
    it.finish();
    assert_eq!(a.to_display_string(), "(1 -> 4 -> 9 -> 16 -> 25)");
}

#[test]
fn empty_list_boundaries() {
    let mut b: boxed::LinkedList<i32> = boxed::LinkedList::new();
    let mut s: shared::LinkedList<i32> = shared::LinkedList::new();
    let mut a: arena::LinkedList<i32> = arena::LinkedList::new();
    assert_eq!(b.pop_head(), Err(boxed::LinkedListError::PopFromEmptyList));
    assert_eq!(b.pop_back(), Err(boxed::LinkedListError::PopFromEmptyList));
    assert_eq!(s.pop_head(), Err(shared::LinkedListError::EmptyList));
    assert_eq!(s.pop_back(), Err(shared::LinkedListError::EmptyList));
    assert_eq!(a.pop_head(), Err(arena::LinkedListError::PopFromEmptyList));
    assert_eq!(a.pop_back(), Err(arena::LinkedListError::PopFromEmptyList));
    assert_eq!(b.get(0), None);
    assert_eq!(s.get(0), None);
    assert_eq!(a.get(0), None);
}

#[test]
fn insert_past_the_end_leaves_the_list() {
    let mut b = boxed::LinkedList::from_iter(vec![7, 8]);
    let mut s = shared::LinkedList::from_vec(vec![7, 8]);
    let mut a = arena::LinkedList::from_iter(vec![7, 8]);
    assert_eq!(b.insert(9, 3), Err(boxed::LinkedListError::InsertOutOfRange));
    assert_eq!(s.insert(&9, 3), Err(shared::LinkedListError::InsertOutOfRange));
    assert_eq!(a.insert(9, 3), Err(arena::LinkedListError::InsertOutOfRange));
    assert_eq!(b.to_display_string(), "(7 -> 8)");
    assert_eq!(s.to_display_string(), "(7 -> 8)");
    assert_eq!(a.to_display_string(), "(7 -> 8)");
}

#[test]
fn remove_at_length_leaves_the_list() {
    let mut b = boxed::LinkedList::from_iter(vec![7, 8]);
    let mut s = shared::LinkedList::from_vec(vec![7, 8]);
    let mut a = arena::LinkedList::from_iter(vec![7, 8]);
    assert_eq!(b.remove(2), Err(boxed::LinkedListError::RemoveOutOfRange));
    assert_eq!(s.remove(2), Err(shared::LinkedListError::RemoveOutOfRange));
    assert_eq!(a.remove(2), Err(arena::LinkedListError::RemoveOutOfRange));
    assert_eq!(b.len(), 2);
    assert_eq!(s.len(), 2);
    assert_eq!(a.len(), 2);
    assert_eq!(b.get(2), None);
    assert_eq!(s.get(2), None);
    assert_eq!(a.get(2), None);
}

#[test]
fn remove_last_then_push_back_keeps_text() {
    let mut b = boxed::LinkedList::from_iter(vec![4, 5, 6]);
    let mut a = arena::LinkedList::from_iter(vec![4, 5, 6]);
    let before = b.to_display_string();
    let v = b.remove(2).unwrap();
    b.push_back(v);
    assert_eq!(b.to_display_string(), before);
    let v = a.remove(2).unwrap();
    a.push_back(v);
    assert_eq!(a.to_display_string(), "(4 -> 5 -> 6)");
}

#[test]
fn push_head_then_pop_head_round_trip() {
    let mut b = boxed::LinkedList::from_iter(vec![1, 2]);
    let mut a = arena::LinkedList::from_iter(vec![1, 2]);
    b.push_head(9);
    a.push_head(9);
    assert_eq!(b.pop_head(), Ok(9));
    assert_eq!(a.pop_head(), Ok(9));
    assert_eq!(b.len(), 2);
    assert_eq!(a.len(), 2);
}

#[test]
fn from_iter_then_get_in_order() {
    let b = boxed::LinkedList::from_iter(vec![10, 20, 30]);
    let s = shared::LinkedList::from_vec(vec![10, 20, 30]);
    let a = arena::LinkedList::from_iter(vec![10, 20, 30]);
    for (i, v) in [10, 20, 30].iter().enumerate() {
        assert_eq!(b.get(i), Some(*v));
        assert_eq!(s.get(i), Some(*v));
        assert_eq!(a.get(i), Some(*v));
    }
}

#[test]
fn collect_and_rebuild_keeps_text() {
    let b = boxed::LinkedList::from_iter(vec![3, 1, 2]);
    let text = b.to_display_string();
    let rebuilt = boxed::LinkedList::from_iter(b.into_iter().into_vec());
    assert_eq!(rebuilt.to_display_string(), text);
    let a = arena::LinkedList::from_iter(vec![3, 1, 2]);
    let rebuilt = arena::LinkedList::from_iter(a.into_iter().into_vec());
    assert_eq!(rebuilt.to_display_string(), "(3 -> 1 -> 2)");
}

#[test]
fn clean_twice() {
    let mut b = boxed::LinkedList::from_iter(vec![1, 2]);
    let mut s = shared::LinkedList::from_vec(vec![1, 2]);
    let mut a = arena::LinkedList::from_iter(vec![1, 2]);
    for _ in 0..2 {
        b.clean();
        s.clean();
        a.clean();
        assert_eq!(b.len(), 0);
        assert_eq!(s.len(), 0);
        assert_eq!(a.len(), 0);
        assert_eq!(b.to_display_string(), "()");
        assert_eq!(s.to_display_string(), "()");
        assert_eq!(a.to_display_string(), "()");
    }
}

#[test]
fn arena_reuses_freed_slots() {
    let mut a = arena::LinkedList::new();
    for v in 0..5 {
        a.push_back(v);
    }
    assert_eq!(a.remove(1), Ok(1));
    assert_eq!(a.remove(2), Ok(3));
    a.push_head(10);
    a.push_back(11);
    assert_eq!(a.insert(12, 2), Ok(()));
    assert_eq!(a.to_display_string(), "(10 -> 0 -> 12 -> 2 -> 4 -> 11)");
    assert_eq!(a.pop_back(), Ok(11));
    assert_eq!(a.pop_back(), Ok(4));
    assert_eq!(a.to_display_string(), "(10 -> 0 -> 12 -> 2)");
    let copy = a.clone();
    assert_eq!(copy.to_display_string(), "(10 -> 0 -> 12 -> 2)");
}

#[test]
fn node_primitives() {
    let mut node = boxed::LinkedListNode::new(1, None);
    assert_eq!(node.remove(), Err(boxed::LinkedListError::RemoveWhileNextIsNone));
    node.insert(3);
    node.insert(2);
    assert_eq!(node.remove(), Ok(2));
    assert_eq!(node.remove(), Ok(3));
    assert_eq!(node.remove(), Err(boxed::LinkedListError::RemoveWhileNextIsNone));

    let mut node = shared::LinkedListNode::new(1, None);
    assert!(node.next().is_none());
    node.insert(&5);
    assert!(node.next().is_some());
    assert_eq!(node.remove(), Ok(5));
    assert_eq!(node.remove(), Err(shared::LinkedListError::NextIsNone));

    let _single = arena::LinkedListNode::new(4);

    let mut node: boxed::LinkedListNode<i32> = Default::default();
    assert_eq!(node.remove(), Err(boxed::LinkedListError::RemoveWhileNextIsNone));
    let mut node: shared::LinkedListNode<i32> = Default::default();
    assert!(node.next().is_none());
    assert_eq!(node.remove(), Err(shared::LinkedListError::NextIsNone));
}

#[test]
fn rendering_of_integers() {
    assert_eq!(0i32.render(), "0");
    assert_eq!((-45i32).render(), "-45");
    assert_eq!(i64::MIN.render(), "-9223372036854775808");
    assert_eq!(u64::MAX.render(), "18446744073709551615");
    assert_eq!(1000u32.render(), "1000");
    assert_eq!(7usize.render(), "7");
    let b = boxed::LinkedList::from_iter(vec![-1, 0, 10]);
    assert_eq!(b.to_display_string(), "(-1 -> 0 -> 10)");
}

#[test]
fn borrowing_iterators_leave_the_list() {
    let b = boxed::LinkedList::from_iter(vec![1, 2]);
    let mut it = b.iter();
    assert_eq!(it.next(), Some(&1));
    assert_eq!(it.next(), Some(&2));
    assert_eq!(it.next(), None);
    assert_eq!(b.len(), 2);
    let a = arena::LinkedList::from_iter(vec![1, 2]);
    let mut it = a.iter();
    assert_eq!(it.next(), Some(&1));
    assert_eq!(it.next(), Some(&2));
    assert_eq!(it.next(), None);
    assert_eq!(a.len(), 2);
}

#[test]
fn head_only_list_clone_is_independent() {
    let mut l = hym::LinkedList::new();
    l.push(1);
    l.push(2);
    let copy = l.clone();
    assert_eq!(l.pop(), Some(2));
    assert_eq!(copy.len(), 2);
    assert_eq!(l.len(), 1);
}
