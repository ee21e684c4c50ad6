//! A list used through shared handles: values come in by reference and are
//! cloned into the list, and lookups hand out clones.
//!
//! The nodes are held as an exclusive chain (see `box_linked_list`); no node
//! ever needs two owners, so no shared ownership is kept at run time.
use crate::linear::box_linked_list::{self as chain, indices_of};
use crate::render::{display_of, Render};
use vstd::prelude::*;
use vstd::std_specs::cmp::PartialEqSpec;

verus! {

/// A node that owns the rest of its chain.
#[derive(Debug)]
pub struct LinkedListNode<T> {
    value: T,
    next: Option<Box<LinkedListNode<T>>>,
}

/// The failures of the list operations.
#[derive(Clone, Debug, PartialEq, Eq)]
pub enum LinkedListError {
    /// A value was popped from an empty list.
    EmptyList,
    /// An insertion index was past the end of the list.
    InsertOutOfRange,
    /// A removal index was at or past the end of the list.
    RemoveOutOfRange,
    /// A value was removed from an empty list.
    RemoveFromEmptyList,
    /// A node was asked to remove its successor and has none.
    NextIsNone,
}

impl<T> LinkedListNode<T> {
    /// The values from this node to the end of its chain.
    pub closed spec fn values(self) -> Seq<T>
        decreases self,
    {
        seq![self.value] + Self::chain_values(self.next)
    }

    /// The values of an optional chain, first node first.
    pub closed spec fn chain_values(link: Option<Box<LinkedListNode<T>>>) -> Seq<T>
        decreases link,
    {
        match link {
            None => Seq::empty(),
            Some(node) => node.values(),
        }
    }
}

impl<T: Clone> LinkedListNode<T> {
    /// A node holding `val` in front of the chain `next_node`.
    pub fn new(val: T, next_node: Option<Box<LinkedListNode<T>>>) -> (r: Self)
        ensures
            r.values() == seq![val] + Self::chain_values(next_node),
    {
        LinkedListNode { value: val, next: next_node }
    }

    /// The node after this one, if any.
    pub fn next(&self) -> (r: Option<&LinkedListNode<T>>)
        ensures
            r is None <==> self.values().len() == 1,
            r is Some ==> r->0.values() == self.values().drop_first(),
    {
        match &self.next {
            None => None,
            Some(node) => {
                assert(self.values().drop_first() =~= node.values());
                Some(&**node)
            },
        }
    }

    /// Splices a new node holding a clone of `val` right after this one.
    pub fn insert(&mut self, val: &T)
        ensures
            final(self).values().len() == old(self).values().len() + 1,
            final(self).values().remove(1) == old(self).values(),
            cloned(*val, final(self).values()[1]),
    {
        let copy = val.clone();
        let rest = self.next.take();
        self.next = Some(Box::new(LinkedListNode::new(copy, rest)));
        assert(final(self).values().remove(1) =~= old(self).values());
    }

    /// Detaches the successor of this node and returns its value.
    pub fn remove(&mut self) -> (r: Result<T, LinkedListError>)
        ensures
            old(self).values().len() == 1 ==> r == Err::<T, LinkedListError>(
                LinkedListError::NextIsNone,
            ) && final(self).values() == old(self).values(),
            old(self).values().len() > 1 ==> r == Ok::<T, LinkedListError>(old(self).values()[1])
                && final(self).values() == old(self).values().remove(1),
    {
        match self.next.take() {
            None => Err(LinkedListError::NextIsNone),
            Some(boxed) => {
                let node = *boxed;
                assert(node.values() =~= seq![node.value] + Self::chain_values(node.next));
                self.next = node.next;
                assert(final(self).values() =~= old(self).values().remove(1));
                Ok(node.value)
            },
        }
    }
}

impl<T: Default> Default for LinkedListNode<T> {
    /// A node holding the default value, with no successor.
    fn default() -> (r: Self)
        ensures
            r.values().len() == 1,
            call_ensures(T::default, (), r.values()[0]),
    {
        let value = T::default();
        let r = LinkedListNode { value, next: None };
        assert(r.values() =~= seq![value]);
        r
    }
}

/// A singly linked list that takes its values by reference and stores clones.
#[derive(Debug)]
pub struct LinkedList<T> {
    nodes: chain::LinkedList<T>,
}

impl<T> View for LinkedList<T> {
    type V = Seq<T>;

    /// The values of the list, head first.
    closed spec fn view(&self) -> Seq<T> {
        self.nodes@
    }
}

impl<T> LinkedList<T> {
    /// The chain underneath is well formed.
    pub closed spec fn wf(&self) -> bool {
        self.nodes.wf()
    }
}

impl<T> LinkedList<T> where T: Clone + PartialEq {
    /// An empty list.
    pub fn new() -> (r: Self)
        ensures
            r.wf(),
            r@ == Seq::<T>::empty(),
    {
        LinkedList { nodes: chain::LinkedList::new() }
    }

    /// Puts a clone of `val` in front of the list.
    pub fn push_head(&mut self, val: &T)
        requires
            old(self).wf(),
            old(self)@.len() < usize::MAX,
        ensures
            final(self).wf(),
            final(self)@.len() == old(self)@.len() + 1,
            final(self)@.drop_first() == old(self)@,
            cloned(*val, final(self)@[0]),
    {
        let copy = val.clone();
        self.nodes.push_head(copy);
        assert(final(self)@.drop_first() =~= old(self)@);
    }

    /// Puts a clone of `val` behind the last value of the list.
    pub fn push_back(&mut self, val: &T)
        requires
            old(self).wf(),
            old(self)@.len() < usize::MAX,
        ensures
            final(self).wf(),
            final(self)@.len() == old(self)@.len() + 1,
            final(self)@.drop_last() == old(self)@,
            cloned(*val, final(self)@.last()),
    {
        let copy = val.clone();
        self.nodes.push_back(copy);
        assert(final(self)@.drop_last() =~= old(self)@);
    }

    /// Takes the first value off the list.
    pub fn pop_head(&mut self) -> (r: Result<T, LinkedListError>)
        requires
            old(self).wf(),
        ensures
            final(self).wf(),
            old(self)@.len() == 0 ==> r == Err::<T, LinkedListError>(LinkedListError::EmptyList)
                && final(self)@ == old(self)@,
            old(self)@.len() > 0 ==> r == Ok::<T, LinkedListError>(old(self)@[0]) && final(self)@
                == old(self)@.drop_first(),
    {
        match self.nodes.pop_head() {
            Ok(v) => Ok(v),
            Err(_) => Err(LinkedListError::EmptyList),
        }
    }

    /// Takes the last value off the list.
    pub fn pop_back(&mut self) -> (r: Result<T, LinkedListError>)
        requires
            old(self).wf(),
        ensures
            final(self).wf(),
            old(self)@.len() == 0 ==> r == Err::<T, LinkedListError>(LinkedListError::EmptyList)
                && final(self)@ == old(self)@,
            old(self)@.len() > 0 ==> r == Ok::<T, LinkedListError>(old(self)@.last())
                && final(self)@ == old(self)@.drop_last(),
    {
        match self.nodes.pop_back() {
            Ok(v) => Ok(v),
            Err(_) => Err(LinkedListError::EmptyList),
        }
    }

    /// Inserts a clone of `val` so that it stands at index `at`; `at` may be the length.
    pub fn insert(&mut self, val: &T, at: usize) -> (r: Result<(), LinkedListError>)
        requires
            old(self).wf(),
            old(self)@.len() < usize::MAX,
        ensures
            final(self).wf(),
            at <= old(self)@.len() ==> r is Ok && final(self)@.len() == old(self)@.len() + 1
                && final(self)@.remove(at as int) == old(self)@ && cloned(
                *val,
                final(self)@[at as int],
            ),
            at > old(self)@.len() ==> r == Err::<(), LinkedListError>(
                LinkedListError::InsertOutOfRange,
            ) && final(self)@ == old(self)@,
    {
        if at > self.nodes.len() {
            return Err(LinkedListError::InsertOutOfRange);
        }
        let copy = val.clone();
        match self.nodes.insert(copy, at) {
            Ok(()) => {
                assert(final(self)@.remove(at as int) =~= old(self)@);
                Ok(())
            },
            Err(_) => Err(LinkedListError::InsertOutOfRange),
        }
    }

    /// Removes the value at index `at` and returns it.
    pub fn remove(&mut self, at: usize) -> (r: Result<T, LinkedListError>)
        requires
            old(self).wf(),
        ensures
            final(self).wf(),
            old(self)@.len() == 0 ==> r == Err::<T, LinkedListError>(
                LinkedListError::RemoveFromEmptyList,
            ) && final(self)@ == old(self)@,
            0 < old(self)@.len() <= at ==> r == Err::<T, LinkedListError>(
                LinkedListError::RemoveOutOfRange,
            ) && final(self)@ == old(self)@,
            at < old(self)@.len() ==> r == Ok::<T, LinkedListError>(old(self)@[at as int])
                && final(self)@ == old(self)@.remove(at as int),
    {
        match self.nodes.remove(at) {
            Ok(v) => Ok(v),
            Err(chain::LinkedListError::RemoveFromEmptyList) => Err(
                LinkedListError::RemoveFromEmptyList,
            ),
            Err(_) => Err(LinkedListError::RemoveOutOfRange),
        }
    }

    /// The indices, in increasing order, of the values equal to `val`.
    pub fn val2ix(&self, val: &T) -> (r: Vec<usize>)
        requires
            self.wf(),
        ensures
            T::obeys_eq_spec() ==> r@ == indices_of(self@, *val),
    {
        self.nodes.val2ix(val)
    }

    /// A clone of the value at index `ix`, or `None` when `ix` is out of range.
    pub fn ix2val(&self, ix: usize) -> (r: Option<T>)
        requires
            self.wf(),
        ensures
            ix >= self@.len() ==> r is None,
            ix < self@.len() ==> r is Some && cloned(self@[ix as int], r->0),
    {
        self.nodes.ix2val(ix)
    }

    /// The same as [`LinkedList::ix2val`].
    pub fn get(&self, ix: usize) -> (r: Option<T>)
        requires
            self.wf(),
        ensures
            ix >= self@.len() ==> r is None,
            ix < self@.len() ==> r is Some && cloned(self@[ix as int], r->0),
    {
        self.ix2val(ix)
    }

    /// The number of values.
    pub fn len(&self) -> (r: usize)
        requires
            self.wf(),
        ensures
            r == self@.len(),
    {
        self.nodes.len()
    }

    /// Drops every node, leaving an empty list.
    pub fn clean(&mut self)
        ensures
            final(self).wf(),
            final(self)@ == Seq::<T>::empty(),
    {
        self.nodes.clean();
    }

    /// A list holding clones of the values of `vals`, in the same order.
    pub fn from_vec(vals: Vec<T>) -> (r: Self)
        ensures
            r.wf(),
            r@ == vals@,
    {
        LinkedList { nodes: chain::LinkedList::from_iter(vals) }
    }
}

impl<T: Render> LinkedList<T> {
    /// The text of the list: `"(v1 -> v2 -> ... -> vk)"`, or `"()"` when empty.
    pub fn to_display_string(&self) -> (r: String)
        requires
            self.wf(),
        ensures
            r@ == display_of(self@),
    {
        self.nodes.to_display_string()
    }
}

impl<T: Clone> Clone for LinkedList<T> {
    /// A list of clones of this list's values, in the same order.
    fn clone(&self) -> (r: Self)
        ensures
            self.wf() ==> r.wf(),
            r@.len() == self@.len(),
            forall|i: int| 0 <= i < r@.len() ==> cloned(#[trigger] self@[i], r@[i]),
    {
        LinkedList { nodes: self.nodes.clone() }
    }
}

} // verus!
