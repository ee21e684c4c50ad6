//! A list whose nodes live in a slot arena and link to each other by slot index.
//!
//! Every node sits in a slot of one vector; a link is the index of the slot that
//! holds the next node. Freed slots are kept on a free list and used again. The
//! list tracks its last node, so appending takes constant time.
use crate::linear::box_linked_list::indices_of;
use crate::render::{append_part, display_of, joined, Render};
use vstd::prelude::*;
use vstd::std_specs::cmp::PartialEqSpec;

verus! {

/// One node: a value and the slot of the next node, if any.
#[derive(Debug)]
pub struct LinkedListNode<T> {
    value: T,
    next: Option<usize>,
}

impl<T> LinkedListNode<T> {
    /// The value held by the node.
    pub closed spec fn held(&self) -> T {
        self.value
    }

    /// The slot of the next node.
    pub closed spec fn link(&self) -> Option<usize> {
        self.next
    }

    /// A node holding `val` with no successor.
    pub fn new(val: T) -> (r: LinkedListNode<T>)
        ensures
            r.held() == val,
            r.link() is None,
    {
        LinkedListNode { value: val, next: None }
    }
}

/// The failures of the list operations.
#[derive(Clone, Debug, PartialEq, Eq)]
pub enum LinkedListError {
    /// A node was asked to remove its successor and has none.
    RemoveWhileNextIsNone,
    /// An insertion index was past the end of the list.
    InsertOutOfRange,
    /// A removal index was at or past the end of the list.
    RemoveOutOfRange,
    /// A value was popped from an empty list.
    PopFromEmptyList,
    /// A value was removed from an empty list.
    RemoveFromEmptyList,
}

/// Every slot on the free list is in range and empty, and none is listed twice.
pub open spec fn free_ok<T>(slots: Seq<Option<LinkedListNode<T>>>, free: Seq<usize>) -> bool {
    &&& forall|k: int|
        0 <= k < free.len() ==> (#[trigger] free[k] as int) < slots.len() && slots[free[k] as int] is None
    &&& forall|k: int, l: int| 0 <= k < l < free.len() ==> free[k] != free[l]
}

/// Puts `node` in a free slot, or in a new one, and returns the slot.
fn take_slot<T>(
    slots: &mut Vec<Option<LinkedListNode<T>>>,
    free: &mut Vec<usize>,
    node: LinkedListNode<T>,
) -> (r: usize)
    requires
        free_ok(old(slots)@, old(free)@),
    ensures
        free_ok(final(slots)@, final(free)@),
        r < final(slots)@.len(),
        final(slots)@.len() >= old(slots)@.len(),
        final(slots)@[r as int] == Some(node),
        r >= old(slots)@.len() || old(slots)@[r as int] is None,
        forall|j: int|
            0 <= j < old(slots)@.len() && j != r ==> final(slots)@[j] == old(slots)@[j],
{
    match free.pop() {
        Some(k) => {
            assert(old(free)@[old(free)@.len() - 1] == k);
            slots.set(k, Some(node));
            assert forall|a: int| 0 <= a < free@.len() implies free@[a] != k by {
                assert(old(free)@[a] == free@[a]);
            }
            k
        },
        None => {
            slots.push(Some(node));
            slots.len() - 1
        },
    }
}

/// Empties slot `k`, puts it on the free list and returns the node it held.
fn free_slot<T>(slots: &mut Vec<Option<LinkedListNode<T>>>, free: &mut Vec<usize>, k: usize) -> (r:
    LinkedListNode<T>)
    requires
        free_ok(old(slots)@, old(free)@),
        k < old(slots)@.len(),
        old(slots)@[k as int] is Some,
    ensures
        free_ok(final(slots)@, final(free)@),
        final(slots)@ == old(slots)@.update(k as int, None),
        old(slots)@[k as int] == Some(r),
{
    let taken = slots[k].take();
    free.push(k);
    assert forall|a: int, b: int| 0 <= a < b < free@.len() implies free@[a] != free@[b] by {
        if b == free@.len() - 1 {
            assert(old(slots)@[free@[a] as int] is None);
        }
    }
    taken.unwrap()
}

/// Points the node in slot `s` at `link`, keeping its value.
fn set_link<T>(slots: &mut Vec<Option<LinkedListNode<T>>>, free: &Vec<usize>, s: usize, link: Option<usize>)
    requires
        free_ok(old(slots)@, free@),
        s < old(slots)@.len(),
        old(slots)@[s as int] is Some,
    ensures
        free_ok(final(slots)@, free@),
        final(slots)@ == old(slots)@.update(
            s as int,
            Some(LinkedListNode { value: old(slots)@[s as int]->0.value, next: link }),
        ),
{
    let mut node = slots[s].take().unwrap();
    node.next = link;
    slots.set(s, Some(node));
    assert forall|k: int| 0 <= k < free@.len() implies free@[k] != s by {
        assert(old(slots)@[free@[k] as int] is None);
    }
}

/// A singly linked list whose nodes are held in a slot arena.
pub struct LinkedList<T> {
    len: usize,
    head: Option<usize>,
    tail: Option<usize>,
    slots: Vec<Option<LinkedListNode<T>>>,
    free: Vec<usize>,
    order: Ghost<Seq<usize>>,
}

impl<T> LinkedList<T> {
    /// The node at position `i` of the list.
    closed spec fn node(&self, i: int) -> LinkedListNode<T> {
        self.slots@[self.order@[i] as int]->0
    }

    /// The slots are linked in list order from `head` to `tail`, each slot is used at
    /// most once, and `len` counts the nodes.
    pub closed spec fn wf(&self) -> bool {
        &&& self.order@.len() == self.len
        &&& free_ok(self.slots@, self.free@)
        &&& forall|i: int|
            0 <= i < self.len ==> (#[trigger] self.order@[i] as int) < self.slots@.len()
                && self.slots@[self.order@[i] as int] is Some
        &&& forall|i: int, j: int| 0 <= i < j < self.len ==> self.order@[i] != self.order@[j]
        &&& forall|i: int|
            0 <= i < self.len - 1 ==> (#[trigger] self.node(i)).next == Some(self.order@[i + 1])
        &&& self.len > 0 ==> self.node(self.len - 1).next is None
        &&& self.head == (if self.len == 0 {
            None
        } else {
            Some(self.order@[0])
        })
        &&& self.tail == (if self.len == 0 {
            None
        } else {
            Some(self.order@[self.len - 1])
        })
    }

    /// The slot that holds position `i`.
    fn slot_of(&self, i: usize) -> (r: usize)
        requires
            self.wf(),
            i < self.len,
        ensures
            r == self.order@[i as int],
            r < self.slots@.len(),
            self.slots@[r as int] is Some,
    {
        let mut cur = self.head.unwrap();
        let mut j: usize = 0;
        while j < i
            invariant
                self.wf(),
                j <= i < self.len,
                cur == self.order@[j as int],
            decreases i - j,
        {
            assert(self.node(j as int).next == Some(self.order@[j + 1]));
            cur = self.slots[cur].as_ref().unwrap().next.unwrap();
            j = j + 1;
        }
        cur
    }
}

impl<T> View for LinkedList<T> {
    type V = Seq<T>;

    /// The values of the list, head first.
    closed spec fn view(&self) -> Seq<T> {
        Seq::new(self.len as nat, |i: int| self.node(i).value)
    }
}

impl<T> LinkedList<T> {
    /// An empty list.
    pub fn new() -> (r: Self)
        ensures
            r.wf(),
            r@ == Seq::<T>::empty(),
    {
        let r = LinkedList {
            len: 0,
            head: None,
            tail: None,
            slots: Vec::new(),
            free: Vec::new(),
            order: Ghost(Seq::empty()),
        };
        assert(r@ =~= Seq::<T>::empty());
        r
    }

    /// Puts `val` in front of the list.
    pub fn push_head(&mut self, val: T)
        requires
            old(self).wf(),
            old(self)@.len() < usize::MAX,
        ensures
            final(self).wf(),
            final(self)@ == seq![val] + old(self)@,
    {
        let node = LinkedListNode { value: val, next: self.head };
        let k = take_slot(&mut self.slots, &mut self.free, node);
        proof {
            assert forall|i: int| 0 <= i < old(self).len implies old(self).order@[i] != k by {
                assert(old(self).slots@[old(self).order@[i] as int] is Some);
            }
        }
        self.order = Ghost(seq![k] + self.order@);
        self.head = Some(k);
        if self.len == 0 {
            self.tail = Some(k);
        }
        self.len = self.len + 1;
        proof {
            assert forall|i: int| 1 <= i < self.len implies #[trigger] self.node(i) == old(self).node(i - 1) by {
                assert(self.order@[i] == old(self).order@[i - 1]);
            }
            assert(self.node(0) == node);
            assert(self.wf());
        }
        assert(final(self)@ =~= seq![val] + old(self)@);
    }

    /// Puts `val` behind the last value of the list.
    pub fn push_back(&mut self, val: T)
        requires
            old(self).wf(),
            old(self)@.len() < usize::MAX,
        ensures
            final(self).wf(),
            final(self)@ == old(self)@.push(val),
    {
        if self.len == 0 {
            self.push_head(val);
            assert(final(self)@ =~= old(self)@.push(val));
            return;
        }
        let t = self.tail.unwrap();
        let node = LinkedListNode::new(val);
        let k = take_slot(&mut self.slots, &mut self.free, node);
        proof {
            assert forall|i: int| 0 <= i < old(self).len implies old(self).order@[i] != k by {
                assert(old(self).slots@[old(self).order@[i] as int] is Some);
            }
        }
        set_link(&mut self.slots, &self.free, t, Some(k));
        self.order = Ghost(self.order@.push(k));
        self.tail = Some(k);
        self.len = self.len + 1;
        proof {
            let n = old(self).len as int;
            assert forall|i: int| 0 <= i < n - 1 implies #[trigger] self.node(i) == old(self).node(i) by {
                assert(self.order@[i] == old(self).order@[i]);
                assert(old(self).order@[i] != old(self).order@[n - 1]);
            }
            assert(self.order@[n - 1] == t);
            assert(self.node(n - 1).value == old(self).node(n - 1).value);
            assert(self.node(n - 1).next == Some(k));
            assert(self.node(n) == node);
            assert forall|i: int| 0 <= i < self.len implies (#[trigger] self.order@[i] as int) < self.slots@.len()
                && self.slots@[self.order@[i] as int] is Some by {
                if i < n {
                    assert(self.order@[i] == old(self).order@[i]);
                }
            }
            assert forall|i: int| 0 <= i < self.len - 1 implies (#[trigger] self.node(i)).next == Some(self.order@[i + 1]) by {
                if i < n - 1 {
                    assert(old(self).node(i).next == Some(old(self).order@[i + 1]));
                }
            }
            assert(self.wf());
        }
        assert(final(self)@ =~= old(self)@.push(val));
    }

    /// Takes the first value off the list.
    pub fn pop_head(&mut self) -> (r: Result<T, LinkedListError>)
        requires
            old(self).wf(),
        ensures
            final(self).wf(),
            old(self)@.len() == 0 ==> r == Err::<T, LinkedListError>(
                LinkedListError::PopFromEmptyList,
            ) && final(self)@ == old(self)@,
            old(self)@.len() > 0 ==> r == Ok::<T, LinkedListError>(old(self)@[0]) && final(self)@
                == old(self)@.drop_first(),
    {
        match self.head {
            None => Err(LinkedListError::PopFromEmptyList),
            Some(k) => {
                let node = free_slot(&mut self.slots, &mut self.free, k);
                self.head = node.next;
                if self.len == 1 {
                    self.tail = None;
                }
                self.order = Ghost(self.order@.drop_first());
                self.len = self.len - 1;
                proof {
                    assert(node == old(self).node(0));
                    assert forall|i: int| 0 <= i < self.len implies #[trigger] self.node(i) == old(self).node(i + 1) by {
                        assert(self.order@[i] == old(self).order@[i + 1]);
                        assert(old(self).order@[0] != old(self).order@[i + 1]);
                    }
                    assert forall|i: int| 0 <= i < self.len implies (#[trigger] self.order@[i] as int) < self.slots@.len()
                        && self.slots@[self.order@[i] as int] is Some by {
                        assert(self.order@[i] == old(self).order@[i + 1]);
                        assert(old(self).order@[0] != old(self).order@[i + 1]);
                    }
                    assert forall|i: int| 0 <= i < self.len - 1 implies (#[trigger] self.node(i)).next == Some(self.order@[i + 1]) by {
                        assert(old(self).node(i + 1).next == Some(old(self).order@[i + 2]));
                    }
                    if self.len > 0 {
                        assert(old(self).node(0).next == Some(old(self).order@[1]));
                    }
                    assert(self.wf());
                }
                assert(final(self)@ =~= old(self)@.drop_first());
                Ok(node.value)
            },
        }
    }

    /// Takes the last value off the list.
    pub fn pop_back(&mut self) -> (r: Result<T, LinkedListError>)
        requires
            old(self).wf(),
        ensures
            final(self).wf(),
            old(self)@.len() == 0 ==> r == Err::<T, LinkedListError>(
                LinkedListError::PopFromEmptyList,
            ) && final(self)@ == old(self)@,
            old(self)@.len() > 0 ==> r == Ok::<T, LinkedListError>(old(self)@.last())
                && final(self)@ == old(self)@.drop_last(),
    {
        if self.len == 0 {
            return Err(LinkedListError::PopFromEmptyList);
        }
        if self.len == 1 {
            let r = self.pop_head();
            assert(final(self)@ =~= old(self)@.drop_last());
            return r;
        }
        let p = self.slot_of(self.len - 2);
        let k = self.tail.unwrap();
        proof {
            assert(old(self).order@[self.len - 2] != old(self).order@[self.len - 1]);
        }
        let node = free_slot(&mut self.slots, &mut self.free, k);
        set_link(&mut self.slots, &self.free, p, None);
        self.order = Ghost(self.order@.drop_last());
        self.tail = Some(p);
        self.len = self.len - 1;
        proof {
            let n = old(self).len as int;
            assert(node == old(self).node(n - 1));
            assert forall|i: int| 0 <= i < n - 2 implies #[trigger] self.node(i) == old(self).node(i) by {
                assert(self.order@[i] == old(self).order@[i]);
                assert(old(self).order@[i] != old(self).order@[n - 1]);
                assert(old(self).order@[i] != old(self).order@[n - 2]);
            }
            assert(self.node(n - 2).value == old(self).node(n - 2).value);
            assert(self.node(n - 2).next is None);
            assert forall|i: int| 0 <= i < self.len implies (#[trigger] self.order@[i] as int) < self.slots@.len()
                && self.slots@[self.order@[i] as int] is Some by {
                assert(self.order@[i] == old(self).order@[i]);
                assert(old(self).order@[i] != old(self).order@[n - 1]);
            }
            assert forall|i: int| 0 <= i < self.len - 1 implies (#[trigger] self.node(i)).next == Some(self.order@[i + 1]) by {
                assert(old(self).node(i).next == Some(old(self).order@[i + 1]));
            }
            assert(self.wf());
        }
        assert(final(self)@ =~= old(self)@.drop_last());
        Ok(node.value)
    }

    /// Inserts `val` so that it stands at index `at`; `at` may be the length.
    pub fn insert(&mut self, val: T, at: usize) -> (r: Result<(), LinkedListError>)
        requires
            old(self).wf(),
            old(self)@.len() < usize::MAX,
        ensures
            final(self).wf(),
            at <= old(self)@.len() ==> r is Ok && final(self)@ == old(self)@.insert(at as int, val),
            at > old(self)@.len() ==> r == Err::<(), LinkedListError>(
                LinkedListError::InsertOutOfRange,
            ) && final(self)@ == old(self)@,
    {
        if at > self.len {
            return Err(LinkedListError::InsertOutOfRange);
        }
        if at == 0 {
            self.push_head(val);
            assert(final(self)@ =~= old(self)@.insert(at as int, val));
            return Ok(());
        }
        if at == self.len {
            self.push_back(val);
            assert(final(self)@ =~= old(self)@.insert(at as int, val));
            return Ok(());
        }
        let p = self.slot_of(at - 1);
        let q = self.slots[p].as_ref().unwrap().next;
        let node = LinkedListNode { value: val, next: q };
        let k = take_slot(&mut self.slots, &mut self.free, node);
        proof {
            assert forall|i: int| 0 <= i < old(self).len implies old(self).order@[i] != k by {
                assert(old(self).slots@[old(self).order@[i] as int] is Some);
            }
        }
        set_link(&mut self.slots, &self.free, p, Some(k));
        self.order = Ghost(self.order@.insert(at as int, k));
        self.len = self.len + 1;
        proof {
            let a = at as int;
            assert(q == Some(old(self).order@[a]));
            assert forall|i: int| 0 <= i < self.len && i != a - 1 && i != a implies #[trigger] self.node(i) == (
            if i < a { old(self).node(i) } else { old(self).node(i - 1) }) by {
                if i < a {
                    assert(self.order@[i] == old(self).order@[i]);
                    assert(old(self).order@[i] != old(self).order@[a - 1]);
                } else {
                    assert(self.order@[i] == old(self).order@[i - 1]);
                    assert(old(self).order@[i - 1] != old(self).order@[a - 1]);
                }
            }
            assert(self.order@[a - 1] == p);
            assert(self.node(a - 1).value == old(self).node(a - 1).value);
            assert(self.node(a - 1).next == Some(k));
            assert(self.node(a) == node);
            assert forall|i: int| 0 <= i < self.len implies (#[trigger] self.order@[i] as int) < self.slots@.len()
                && self.slots@[self.order@[i] as int] is Some by {
                if i < a {
                    assert(self.order@[i] == old(self).order@[i]);
                } else if i > a {
                    assert(self.order@[i] == old(self).order@[i - 1]);
                }
            }
            assert forall|i: int, j: int| 0 <= i < j < self.len implies self.order@[i] != self.order@[j] by {
                if i != a && j != a {
                    let oi = if i < a { i } else { i - 1 };
                    let oj = if j < a { j } else { j - 1 };
                    assert(self.order@[i] == old(self).order@[oi]);
                    assert(self.order@[j] == old(self).order@[oj]);
                } else if i == a {
                    assert(self.order@[j] == old(self).order@[j - 1]);
                } else {
                    assert(self.order@[i] == old(self).order@[i]);
                }
            }
            assert forall|i: int| 0 <= i < self.len - 1 implies (#[trigger] self.node(i)).next == Some(self.order@[i + 1]) by {
                if i < a - 1 {
                    assert(old(self).node(i).next == Some(old(self).order@[i + 1]));
                } else if i > a {
                    assert(old(self).node(i - 1).next == Some(old(self).order@[i]));
                }
            }
            assert(self.node(self.len - 1) == old(self).node(old(self).len - 1));
            assert(self.wf());
        }
        assert(final(self)@ =~= old(self)@.insert(at as int, val));
        Ok(())
    }

    /// Removes the value at index `at` and returns it.
    #[verifier::rlimit(60)]
    pub fn remove(&mut self, at: usize) -> (r: Result<T, LinkedListError>)
        requires
            old(self).wf(),
        ensures
            final(self).wf(),
            old(self)@.len() == 0 ==> r == Err::<T, LinkedListError>(
                LinkedListError::RemoveFromEmptyList,
            ) && final(self)@ == old(self)@,
            0 < old(self)@.len() <= at ==> r == Err::<T, LinkedListError>(
                LinkedListError::RemoveOutOfRange,
            ) && final(self)@ == old(self)@,
            at < old(self)@.len() ==> r == Ok::<T, LinkedListError>(old(self)@[at as int])
                && final(self)@ == old(self)@.remove(at as int),
    {
        if self.len == 0 {
            return Err(LinkedListError::RemoveFromEmptyList);
        }
        if at >= self.len {
            return Err(LinkedListError::RemoveOutOfRange);
        }
        if at == 0 {
            let r = self.pop_head();
            assert(final(self)@ =~= old(self)@.remove(at as int));
            return r;
        }
        let p = self.slot_of(at - 1);
        let k = self.slots[p].as_ref().unwrap().next.unwrap();
        proof {
            assert(old(self).node(at - 1).next == Some(old(self).order@[at as int]));
            assert(old(self).order@[at - 1] != old(self).order@[at as int]);
        }
        let node = free_slot(&mut self.slots, &mut self.free, k);
        set_link(&mut self.slots, &self.free, p, node.next);
        if at == self.len - 1 {
            self.tail = Some(p);
        }
        self.order = Ghost(self.order@.remove(at as int));
        self.len = self.len - 1;
        proof {
            let a = at as int;
            let n = old(self).len as int;
            assert(node == old(self).node(a));
            assert forall|i: int| 0 <= i < self.len && i != a - 1 implies #[trigger] self.node(i) == (
            if i < a { old(self).node(i) } else { old(self).node(i + 1) }) by {
                if i < a {
                    assert(self.order@[i] == old(self).order@[i]);
                    assert(old(self).order@[i] != old(self).order@[a]);
                    assert(old(self).order@[i] != old(self).order@[a - 1]);
                } else {
                    assert(self.order@[i] == old(self).order@[i + 1]);
                    assert(old(self).order@[i + 1] != old(self).order@[a]);
                    assert(old(self).order@[i + 1] != old(self).order@[a - 1]);
                }
            }
            assert(self.order@[a - 1] == p);
            assert(self.node(a - 1).value == old(self).node(a - 1).value);
            assert(self.node(a - 1).next == old(self).node(a).next);
            assert forall|i: int| 0 <= i < self.len implies (#[trigger] self.order@[i] as int) < self.slots@.len()
                && self.slots@[self.order@[i] as int] is Some by {
                if i < a {
                    assert(self.order@[i] == old(self).order@[i]);
                    assert(old(self).order@[i] != old(self).order@[a]);
                } else {
                    assert(self.order@[i] == old(self).order@[i + 1]);
                    assert(old(self).order@[i + 1] != old(self).order@[a]);
                }
            }
            assert forall|i: int, j: int| 0 <= i < j < self.len implies self.order@[i] != self.order@[j] by {
                let oi = if i < a { i } else { i + 1 };
                let oj = if j < a { j } else { j + 1 };
                assert(self.order@[i] == old(self).order@[oi]);
                assert(self.order@[j] == old(self).order@[oj]);
            }
            assert forall|i: int| 0 <= i < self.len - 1 implies (#[trigger] self.node(i)).next == Some(self.order@[i + 1]) by {
                if i < a - 1 {
                    assert(old(self).node(i).next == Some(old(self).order@[i + 1]));
                } else if i == a - 1 {
                    assert(old(self).node(a).next == Some(old(self).order@[a + 1]));
                } else {
                    assert(old(self).node(i + 1).next == Some(old(self).order@[i + 2]));
                }
            }
            if a < n - 1 {
                assert(self.node(self.len - 1) == old(self).node(n - 1));
            } else {
                assert(old(self).node(n - 1).next is None);
            }
            assert(self.wf());
        }
        assert(final(self)@ =~= old(self)@.remove(at as int));
        Ok(node.value)
    }

    /// The indices, in increasing order, of the values equal to `val`.
    pub fn val2ix(&self, val: &T) -> (r: Vec<usize>)
        where T: PartialEq,
        requires
            self.wf(),
        ensures
            T::obeys_eq_spec() ==> r@ == indices_of(self@, *val),
    {
        let mut res: Vec<usize> = Vec::new();
        let mut cur = self.head;
        let mut ix: usize = 0;
        while ix < self.len
            invariant
                self.wf(),
                ix <= self.len,
                ix < self.len ==> cur == Some(self.order@[ix as int]),
                T::obeys_eq_spec() ==> res@ == indices_of(self@.subrange(0, ix as int), *val),
            decreases self.len - ix,
        {
            let k = cur.unwrap();
            let node = self.slots[k].as_ref().unwrap();
            let same = node.value == *val;
            proof {
                let prefix = self@.subrange(0, ix as int + 1);
                assert(prefix.drop_last() =~= self@.subrange(0, ix as int));
                assert(prefix.last() == node.value);
                if ix + 1 < self.len {
                    assert(self.node(ix as int).next == Some(self.order@[ix + 1]));
                }
            }
            if same {
                res.push(ix);
            }
            cur = node.next;
            ix = ix + 1;
        }
        assert(self@.subrange(0, ix as int) =~= self@);
        res
    }

    /// A clone of the value at index `ix`, or `None` when `ix` is out of range.
    pub fn ix2val(&self, ix: usize) -> (r: Option<T>)
        where T: Clone,
        requires
            self.wf(),
        ensures
            ix >= self@.len() ==> r is None,
            ix < self@.len() ==> r is Some && cloned(self@[ix as int], r->0),
    {
        if ix >= self.len {
            return None;
        }
        let k = self.slot_of(ix);
        Some(self.slots[k].as_ref().unwrap().value.clone())
    }

    /// The same as [`LinkedList::ix2val`].
    pub fn get(&self, ix: usize) -> (r: Option<T>)
        where T: Clone,
        requires
            self.wf(),
        ensures
            ix >= self@.len() ==> r is None,
            ix < self@.len() ==> r is Some && cloned(self@[ix as int], r->0),
    {
        self.ix2val(ix)
    }

    /// The number of values.
    pub fn len(&self) -> (r: usize)
        requires
            self.wf(),
        ensures
            r == self@.len(),
    {
        self.len
    }

    /// Whether the list holds no value.
    pub fn is_empty(&self) -> (r: bool)
        requires
            self.wf(),
        ensures
            r == (self@.len() == 0),
    {
        self.len == 0
    }

    /// Drops every node and every slot, leaving an empty list.
    pub fn clean(&mut self)
        ensures
            final(self).wf(),
            final(self)@ == Seq::<T>::empty(),
    {
        *self = LinkedList::new();
    }

    /// A list holding the values of `vals` in the same order.
    pub fn from_iter(vals: Vec<T>) -> (r: Self)
        ensures
            r.wf(),
            r@ == vals@,
    {
        let mut vals = vals;
        let ghost all = vals@;
        let n = vals.len();
        let mut list = LinkedList::new();
        while vals.len() > 0
            invariant
                all.len() == n,
                list.wf(),
                all == vals@ + list@,
            decreases vals.len(),
        {
            let v = vals.pop().unwrap();
            list.push_head(v);
            assert(all =~= vals@ + list@);
        }
        assert(all =~= list@);
        list
    }

    /// A read-only iterator over the values, head first.
    pub fn iter(&self) -> (r: LinkedListBorrowIterator<'_, T>)
        requires
            self.wf(),
        ensures
            r.wf(),
            r@ == self@,
    {
        let r = LinkedListBorrowIterator { list: self, cursor: self.head, index: 0 };
        assert(r@ =~= self@);
        r
    }

    /// An iterator over mutable references to the values, head first.
    ///
    /// What the list holds afterwards is what the iterator's list ends up holding;
    /// [`LinkedListBorrowMutIterator::finish`] states it.
    pub fn iter_mut(&mut self) -> (r: LinkedListBorrowMutIterator<'_, T>)
        requires
            old(self).wf(),
        ensures
            r.wf(),
            r.values() == old(self)@,
            r.position() == 0,
            *final(self) == *final(r.target()),
    {
        let cursor = self.head;
        LinkedListBorrowMutIterator { list: self, cursor, index: 0 }
    }

    /// Hands the values over to a consuming iterator.
    pub fn into_iter(self) -> (r: LinkedListIterator<T>)
        requires
            self.wf(),
        ensures
            r@ == self@,
    {
        let mut list = self;
        let mut values: Vec<T> = Vec::new();
        let ghost all = list@;
        while list.len > 0
            invariant
                list.wf(),
                list@ + values@.reverse() == all,
            decreases list.len,
        {
            let v = list.pop_back().unwrap();
            proof {
                assert(values@.push(v).reverse() =~= seq![v] + values@.reverse());
            }
            values.push(v);
            assert(all =~= list@ + values@.reverse());
        }
        assert(all =~= values@.reverse());
        LinkedListIterator { rest: values }
    }
}

impl<T: Render> LinkedList<T> {
    /// The text of the list: `"(v1 -> v2 -> ... -> vk)"`, or `"()"` when empty.
    pub fn to_display_string(&self) -> (r: String)
        requires
            self.wf(),
        ensures
            r@ == display_of(self@),
    {
        let mut s = String::new();
        proof {
            reveal_strlit("(");
            reveal_strlit(")");
        }
        s.append("(");
        let mut cur = self.head;
        let mut ix: usize = 0;
        let ghost mut done: Seq<Seq<char>> = Seq::empty();
        assert(s@ =~= seq!['('] + joined(done));
        while ix < self.len
            invariant
                self.wf(),
                ix <= self.len,
                ix < self.len ==> cur == Some(self.order@[ix as int]),
                done == self@.subrange(0, ix as int).map_values(|v: T| v.rendered()),
                s@ == seq!['('] + joined(done),
            decreases self.len - ix,
        {
            let k = cur.unwrap();
            let node = self.slots[k].as_ref().unwrap();
            let part = node.value.render();
            append_part(&mut s, part.as_str(), ix == 0, Ghost(done));
            proof {
                done = done.push(part@);
                assert(done =~= self@.subrange(0, ix + 1).map_values(|v: T| v.rendered()));
                if ix + 1 < self.len {
                    assert(self.node(ix as int).next == Some(self.order@[ix + 1]));
                }
            }
            cur = node.next;
            ix = ix + 1;
        }
        assert(self@.subrange(0, ix as int) =~= self@);
        s.append(")");
        s
    }
}

impl<T: Clone> Clone for LinkedList<T> {
    /// A list of clones of this list's values, in the same order, in a fresh arena.
    fn clone(&self) -> (r: Self)
        ensures
            r.wf(),
            self.wf() ==> r@.len() == self@.len(),
            self.wf() ==> forall|i: int| 0 <= i < r@.len() ==> cloned(#[trigger] self@[i], r@[i]),
    {
        let mut r = LinkedList::new();
        let mut cur = self.head;
        let mut ix: usize = 0;
        let mut linked = true;
        while linked && ix < self.len
            invariant
                r.wf(),
                r@.len() == ix,
                ix <= self.len,
                self.wf() ==> linked,
                self.wf() && ix < self.len ==> cur == Some(self.order@[ix as int]),
                self.wf() ==> forall|j: int| 0 <= j < ix ==> cloned(#[trigger] self@[j], r@[j]),
            decreases self.len - ix + (if linked { 1int } else { 0int }),
        {
            linked = false;
            if let Some(k) = cur {
                if k < self.slots.len() {
                    if let Some(node) = &self.slots[k] {
                        proof {
                            if self.wf() && ix + 1 < self.len {
                                assert(self.node(ix as int).next == Some(self.order@[ix + 1]));
                            }
                        }
                        let ghost before = r@;
                        r.push_back(node.value.clone());
                        proof {
                            assert forall|j: int| 0 <= j < ix implies r@[j] == before[j] by {}
                        }
                        cur = node.next;
                        linked = true;
                        ix = ix + 1;
                    }
                }
            }
        }
        r
    }
}

impl<T> Default for LinkedList<T> {
    /// An empty list.
    fn default() -> (r: Self)
        ensures
            r.wf(),
            r@ == Seq::<T>::empty(),
    {
        LinkedList::new()
    }
}

impl<T> LinkedList<T> {
    /// Replacing the value at position `i` keeps the list well formed and changes
    /// that value only.
    proof fn lemma_value_set(a: LinkedList<T>, b: LinkedList<T>, i: int, v: T)
        requires
            a.wf(),
            0 <= i < a.len,
            b.len == a.len,
            b.head == a.head,
            b.tail == a.tail,
            b.free == a.free,
            b.order == a.order,
            b.slots@ == a.slots@.update(
                a.order@[i] as int,
                Some(LinkedListNode { value: v, next: a.node(i).next }),
            ),
        ensures
            b.wf(),
            b@ == a@.update(i, v),
    {
        assert forall|j: int| 0 <= j < a.len && j != i implies #[trigger] b.node(j) == a.node(j) by {
            assert(a.order@[j] != a.order@[i]);
        }
        assert(b.wf());
        assert(b@ =~= a@.update(i, v));
    }
}

/// A consuming iterator: it owns the values that it has not handed out yet.
pub struct LinkedListIterator<T> {
    rest: Vec<T>,
}

impl<T> View for LinkedListIterator<T> {
    type V = Seq<T>;

    /// The values still to come, in order.
    closed spec fn view(&self) -> Seq<T> {
        self.rest@.reverse()
    }
}

impl<T> LinkedListIterator<T> {
    /// The next value, or `None` when all have been handed out.
    pub fn next(&mut self) -> (r: Option<T>)
        ensures
            old(self)@.len() == 0 ==> r is None && final(self)@ == old(self)@,
            old(self)@.len() > 0 ==> r == Some(old(self)@[0]) && final(self)@ == old(self)@.drop_first(),
    {
        let r = self.rest.pop();
        proof {
            if old(self).rest@.len() > 0 {
                assert(old(self).rest@ =~= self.rest@.push(r->0));
                assert(old(self)@ =~= seq![r->0] + self@);
            }
        }
        r
    }

    /// All the values still to come, in order.
    pub fn into_vec(self) -> (r: Vec<T>)
        ensures
            r@ == self@,
    {
        let mut it = self;
        let ghost all = it@;
        let mut r: Vec<T> = Vec::new();
        while it.rest.len() > 0
            invariant
                all == r@ + it@,
            decreases it@.len(),
        {
            let v = it.next().unwrap();
            r.push(v);
            assert(all =~= r@ + it@);
        }
        assert(all =~= r@);
        r
    }
}

/// A read-only iterator over the values of a list.
pub struct LinkedListBorrowIterator<'a, T> {
    list: &'a LinkedList<T>,
    cursor: Option<usize>,
    index: usize,
}

impl<'a, T> View for LinkedListBorrowIterator<'a, T> {
    type V = Seq<T>;

    /// The values still to come.
    closed spec fn view(&self) -> Seq<T> {
        self.list@.subrange(self.index as int, self.list.len as int)
    }
}

impl<'a, T> LinkedListBorrowIterator<'a, T> {
    /// The cursor is the slot of the next value of a well-formed list.
    pub closed spec fn wf(&self) -> bool {
        &&& self.list.wf()
        &&& self.index <= self.list.len
        &&& self.index < self.list.len ==> self.cursor == Some(self.list.order@[self.index as int])
    }

    /// A reference to the next value, or `None` at the end of the list.
    pub fn next(&mut self) -> (r: Option<&'a T>)
        requires
            old(self).wf(),
        ensures
            final(self).wf(),
            old(self)@.len() == 0 ==> r is None && final(self)@ == old(self)@,
            old(self)@.len() > 0 ==> r is Some && *r->0 == old(self)@[0] && final(self)@
                == old(self)@.drop_first(),
    {
        if self.index >= self.list.len {
            return None;
        }
        let k = self.cursor.unwrap();
        let list = self.list;
        let node = list.slots[k].as_ref().unwrap();
        proof {
            if self.index + 1 < list.len {
                assert(list.node(self.index as int).next == Some(list.order@[self.index + 1]));
            }
        }
        self.cursor = node.next;
        self.index = self.index + 1;
        assert(final(self)@ =~= old(self)@.drop_first());
        Some(&node.value)
    }
}

/// An iterator that lends mutable references to the values of a list, head first.
///
/// Each reference lasts until the next call; the values are changed in place.
pub struct LinkedListBorrowMutIterator<'a, T> {
    list: &'a mut LinkedList<T>,
    cursor: Option<usize>,
    index: usize,
}

impl<'a, T> LinkedListBorrowMutIterator<'a, T> {
    /// The borrowed list.
    pub closed spec fn target(&self) -> &'a mut LinkedList<T> {
        self.list
    }

    /// The values of the borrowed list as they are now.
    pub closed spec fn values(&self) -> Seq<T> {
        (*self.list)@
    }

    /// The index of the next value.
    pub closed spec fn position(&self) -> int {
        self.index as int
    }

    /// The cursor is the slot of the next value of a well-formed list.
    pub closed spec fn wf(&self) -> bool {
        &&& self.list.wf()
        &&& self.index <= self.list.len
        &&& self.index < self.list.len ==> self.cursor == Some(self.list.order@[self.index as int])
    }

    /// Ends the borrow: the list holds what the iterator's list holds now.
    pub fn finish(self)
        ensures
            *final(self.target()) == *self.target(),
            (*final(self.target()))@ == self.values(),
            self.wf() ==> (*final(self.target())).wf(),
    {
    }

    /// A mutable reference to the next value, or `None` at the end of the list.
    ///
    /// The list ends up holding, at that index, what the caller leaves behind the reference.
    pub fn next(&mut self) -> (r: Option<&mut T>)
        requires
            old(self).wf(),
        ensures
            old(self).position() >= old(self).values().len() ==> r is None && *final(self) == *old(self),
            old(self).position() < old(self).values().len() ==> r is Some
                && *r->0 == old(self).values()[old(self).position()]
                && final(self).position() == old(self).position() + 1
                && final(self).values() == old(self).values().update(old(self).position(), *final(r->0))
                && final(self).wf(),
            *final(final(self).target()) == *final(old(self).target()),
    {
        if self.index >= self.list.len {
            return None;
        }
        let k = self.cursor.unwrap();
        let nxt = self.list.slots[k].as_ref().unwrap().next;
        proof {
            if self.index + 1 < self.list.len {
                assert(self.list.node(self.index as int).next == Some(self.list.order@[self.index + 1]));
            }
        }
        let ghost i = self.index as int;
        self.cursor = nxt;
        self.index = self.index + 1;
        let node = self.list.slots[k].as_mut().unwrap();
        let value = &mut node.value;
        proof {
            LinkedList::lemma_value_set(*old(self).list, *after_borrow(self).list, i, *final(value));
        }
        Some(value)
    }
}

/// Removing the last value (`remove(len - 1)`) and appending it again
/// (`push_back`) gives back a list with the same text.
pub proof fn lemma_remove_last_then_push_back<T: Render>(l: LinkedList<T>)
    requires
        l.wf(),
        l@.len() > 0,
    ensures
        ({
            let n = l@.len() - 1;
            display_of(l@.remove(n).push(l@[n])) == display_of(l@)
        }),
{
    let n = l@.len() - 1;
    assert(l@.remove(n).push(l@[n]) =~= l@);
}

/// `push_head(v)` followed by `pop_head()` hands back `v` and the list it started from.
pub proof fn lemma_push_head_then_pop_head<T>(l: LinkedList<T>, v: T)
    requires
        l.wf(),
        l@.len() < usize::MAX,
    ensures
        (seq![v] + l@).len() > 0,
        (seq![v] + l@)[0] == v,
        (seq![v] + l@).drop_first() == l@,
        (seq![v] + l@).drop_first().len() == l@.len(),
{
    assert((seq![v] + l@).drop_first() =~= l@);
}

/// A list built by `from_iter(vals)` holds, at each index, the value of `vals` there.
pub proof fn lemma_from_iter_then_get<T>(vals: Seq<T>, l: LinkedList<T>)
    requires
        l.wf(),
        l@ == vals,
    ensures
        l@.len() == vals.len(),
        forall|i: int| 0 <= i < vals.len() ==> #[trigger] l@[i] == vals[i],
{
}

/// Collecting a list through its consuming iterator (`into_iter`, then `into_vec`)
/// and building a list from the result (`from_iter`) gives a list with the same text.
pub proof fn lemma_round_trip<T: Render>(
    l: LinkedList<T>,
    it: LinkedListIterator<T>,
    collected: Seq<T>,
    rebuilt: LinkedList<T>,
)
    requires
        l.wf(),
        it@ == l@,
        collected == it@,
        rebuilt@ == collected,
    ensures
        display_of(rebuilt@) == display_of(l@),
        rebuilt@ == l@,
{
}

/// After `clean`, and after a second `clean`, the list is empty and reads `"()"`.
pub proof fn lemma_clean_twice<T: Render>(once: LinkedList<T>, twice: LinkedList<T>)
    requires
        once@ == Seq::<T>::empty(),
        twice@ == Seq::<T>::empty(),
    ensures
        once@.len() == 0,
        twice@.len() == 0,
        display_of(once@) == seq!['(', ')'],
        display_of(twice@) == seq!['(', ')'],
{
    crate::render::lemma_display_empty::<T>();
}

} // verus!
