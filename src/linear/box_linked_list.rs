//! A list whose nodes form an exclusive chain: each node owns the next one.
use crate::render::{display_of, append_part, Render};
use vstd::prelude::*;
use vstd::std_specs::cmp::PartialEqSpec;

verus! {

/// The indices, in increasing order, at which `values` holds a value equal to `val`.
pub open spec fn indices_of<T: PartialEq>(values: Seq<T>, val: T) -> Seq<usize>
    decreases values.len(),
{
    if values.len() == 0 {
        Seq::empty()
    } else {
        let before = indices_of(values.drop_last(), val);
        if values.last().eq_spec(&val) {
            before.push((values.len() - 1) as usize)
        } else {
            before
        }
    }
}

/// One node of the chain: a value and the rest of the chain, if any.
#[derive(Debug)]
pub struct LinkedListNode<T> {
    value: T,
    next: Option<Box<LinkedListNode<T>>>,
}

/// The failures of the list operations.
#[derive(Clone, Debug, PartialEq, Eq)]
pub enum LinkedListError {
    /// A node was asked to remove its successor and has none.
    RemoveWhileNextIsNone,
    /// An insertion index was past the end of the list.
    InsertOutOfRange,
    /// A removal index was at or past the end of the list.
    RemoveOutOfRange,
    /// A value was popped from an empty list.
    PopFromEmptyList,
    /// A value was removed from an empty list.
    RemoveFromEmptyList,
}

impl<T> LinkedListNode<T> {
    /// The values from this node to the end of its chain.
    pub closed spec fn values(self) -> Seq<T>
        decreases self,
    {
        seq![self.value] + Self::chain_values(self.next)
    }

    /// The values of an optional chain, first node first.
    pub closed spec fn chain_values(link: Option<Box<LinkedListNode<T>>>) -> Seq<T>
        decreases link,
    {
        match link {
            None => Seq::empty(),
            Some(node) => node.values(),
        }
    }

    /// A node holding `val` in front of the chain `next_node`.
    pub fn new(val: T, next_node: Option<Box<LinkedListNode<T>>>) -> (r: LinkedListNode<T>)
        ensures
            r.values() == seq![val] + Self::chain_values(next_node),
    {
        LinkedListNode { value: val, next: next_node }
    }

    /// Splices a new node holding `val` right after this one.
    pub fn insert(&mut self, val: T)
        ensures
            final(self).values() == old(self).values().insert(1, val),
    {
        let rest = self.next.take();
        self.next = Some(Box::new(LinkedListNode::new(val, rest)));
        assert(final(self).values() =~= old(self).values().insert(1, val));
    }

    /// Detaches the successor of this node and returns its value.
    pub fn remove(&mut self) -> (r: Result<T, LinkedListError>)
        ensures
            old(self).values().len() == 1 ==> r == Err::<T, LinkedListError>(
                LinkedListError::RemoveWhileNextIsNone,
            ) && final(self).values() == old(self).values(),
            old(self).values().len() > 1 ==> r == Ok::<T, LinkedListError>(old(self).values()[1])
                && final(self).values() == old(self).values().remove(1),
    {
        match self.next.take() {
            None => Err(LinkedListError::RemoveWhileNextIsNone),
            Some(boxed) => {
                let node = *boxed;
                assert(node.values() =~= seq![node.value] + Self::chain_values(node.next));
                self.next = node.next;
                assert(final(self).values() =~= old(self).values().remove(1));
                Ok(node.value)
            },
        }
    }

    /// Inserts `val` so that it stands at position `at` of this chain.
    fn insert_at(&mut self, val: T, at: usize)
        requires
            1 <= at <= old(self).values().len(),
        ensures
            final(self).values() == old(self).values().insert(at as int, val),
    {
        let ghost whole = old(self).values();
        let mut cur: &mut LinkedListNode<T> = self;
        let mut i: usize = 1;
        while i < at
            invariant
                1 <= i <= at <= whole.len(),
                cur.values() == whole.subrange(i - 1, whole.len() as int),
                (*after_borrow(self)).values() == whole.subrange(0, i - 1) + (*final(cur)).values(),
            decreases at - i,
        {
            assert(cur.values() =~= seq![cur.value] + Self::chain_values(cur.next));
            assert(Self::chain_values(cur.next) =~= cur.values().subrange(1, cur.values().len() as int));
            assert(Self::chain_values(cur.next) =~= whole.subrange(i as int, whole.len() as int));
            assert(cur.values()[0] == whole.subrange(i - 1, whole.len() as int)[0]);
            assert(cur.value == whole[i - 1]);
            let ghost prev = cur;
            let next = cur.next.as_mut().unwrap();
            cur = &mut **next;
            assert((*final(prev)).values() == seq![prev.value] + (*final(cur)).values());
            assert(whole.subrange(0, i - 1) + seq![prev.value] =~= whole.subrange(0, i as int));
            i = i + 1;
        }
        cur.insert(val);
    }

    /// Removes the value at position `at` of this chain and returns it.
    fn remove_at(&mut self, at: usize) -> (r: T)
        requires
            1 <= at < old(self).values().len(),
        ensures
            r == old(self).values()[at as int],
            final(self).values() == old(self).values().remove(at as int),
    {
        let ghost whole = old(self).values();
        let mut cur: &mut LinkedListNode<T> = self;
        let mut i: usize = 1;
        while i < at
            invariant
                1 <= i <= at < whole.len(),
                cur.values() == whole.subrange(i - 1, whole.len() as int),
                (*after_borrow(self)).values() == whole.subrange(0, i - 1) + (*final(cur)).values(),
            decreases at - i,
        {
            assert(cur.values() =~= seq![cur.value] + Self::chain_values(cur.next));
            assert(Self::chain_values(cur.next) =~= cur.values().subrange(1, cur.values().len() as int));
            assert(cur.values()[0] == whole.subrange(i - 1, whole.len() as int)[0]);
            let ghost prev = cur;
            let next = cur.next.as_mut().unwrap();
            cur = &mut **next;
            assert((*final(prev)).values() == seq![prev.value] + (*final(cur)).values());
            assert(whole.subrange(0, i - 1) + seq![prev.value] =~= whole.subrange(0, i as int));
            i = i + 1;
        }
        let ghost before = cur.values();
        assert(before[1] == whole[at as int]);
        let r = cur.remove().unwrap();
        assert(whole.subrange(0, at - 1) + before.remove(1) =~= whole.remove(at as int));
        r
    }
}

impl<T: Default> Default for LinkedListNode<T> {
    /// A node holding the default value, with no successor.
    fn default() -> (r: Self)
        ensures
            r.values().len() == 1,
            call_ensures(T::default, (), r.values()[0]),
    {
        let value = T::default();
        let r = LinkedListNode { value, next: None };
        assert(r.values() =~= seq![value]);
        r
    }
}

/// A singly linked list that owns its nodes through a chain of boxes.
#[derive(Debug)]
pub struct LinkedList<T> {
    len: usize,
    head: Option<Box<LinkedListNode<T>>>,
}

impl<T> View for LinkedList<T> {
    type V = Seq<T>;

    /// The values of the list, head first.
    closed spec fn view(&self) -> Seq<T> {
        LinkedListNode::chain_values(self.head)
    }
}

impl<T> LinkedList<T> {
    /// The stored length is the number of values in the chain.
    pub closed spec fn wf(&self) -> bool {
        self.len == self@.len()
    }
}

impl<T> LinkedList<T> where T: PartialEq + Clone {
    /// An empty list.
    pub fn new() -> (r: Self)
        ensures
            r.wf(),
            r@ == Seq::<T>::empty(),
    {
        LinkedList { len: 0, head: None }
    }

    /// Puts `val` in front of the list.
    pub fn push_head(&mut self, val: T)
        requires
            old(self).wf(),
            old(self)@.len() < usize::MAX,
        ensures
            final(self).wf(),
            final(self)@ == seq![val] + old(self)@,
    {
        let rest = self.head.take();
        self.head = Some(Box::new(LinkedListNode::new(val, rest)));
        self.len = self.len + 1;
    }

    /// Puts `val` behind the last value of the list.
    pub fn push_back(&mut self, val: T)
        requires
            old(self).wf(),
            old(self)@.len() < usize::MAX,
        ensures
            final(self).wf(),
            final(self)@ == old(self)@.push(val),
    {
        if self.len == 0 {
            self.push_head(val);
            assert(final(self)@ =~= old(self)@.push(val));
        } else {
            let mut head = self.head.take().unwrap();
            let at = self.len;
            head.insert_at(val, at);
            self.head = Some(head);
            self.len = self.len + 1;
            assert(final(self)@ =~= old(self)@.push(val));
        }
    }

    /// Takes the first value off the list.
    pub fn pop_head(&mut self) -> (r: Result<T, LinkedListError>)
        requires
            old(self).wf(),
        ensures
            final(self).wf(),
            old(self)@.len() == 0 ==> r == Err::<T, LinkedListError>(
                LinkedListError::PopFromEmptyList,
            ) && final(self)@ == old(self)@,
            old(self)@.len() > 0 ==> r == Ok::<T, LinkedListError>(old(self)@[0]) && final(self)@
                == old(self)@.drop_first(),
    {
        match self.head.take() {
            None => Err(LinkedListError::PopFromEmptyList),
            Some(boxed) => {
                let node = *boxed;
                assert(node.values().drop_first() =~= LinkedListNode::chain_values(node.next));
                self.head = node.next;
                self.len = self.len - 1;
                Ok(node.value)
            },
        }
    }

    /// Takes the last value off the list.
    pub fn pop_back(&mut self) -> (r: Result<T, LinkedListError>)
        requires
            old(self).wf(),
        ensures
            final(self).wf(),
            old(self)@.len() == 0 ==> r == Err::<T, LinkedListError>(
                LinkedListError::PopFromEmptyList,
            ) && final(self)@ == old(self)@,
            old(self)@.len() > 0 ==> r == Ok::<T, LinkedListError>(old(self)@.last())
                && final(self)@ == old(self)@.drop_last(),
    {
        if self.len == 0 {
            Err(LinkedListError::PopFromEmptyList)
        } else if self.len == 1 {
            let r = self.pop_head();
            assert(final(self)@ =~= old(self)@.drop_last());
            r
        } else {
            let mut head = self.head.take().unwrap();
            let at = self.len - 1;
            let v = head.remove_at(at);
            self.head = Some(head);
            self.len = self.len - 1;
            assert(final(self)@ =~= old(self)@.drop_last());
            Ok(v)
        }
    }

    /// Inserts `val` so that it stands at index `at`; `at` may be the length.
    pub fn insert(&mut self, val: T, at: usize) -> (r: Result<(), LinkedListError>)
        requires
            old(self).wf(),
            old(self)@.len() < usize::MAX,
        ensures
            final(self).wf(),
            at <= old(self)@.len() ==> r is Ok && final(self)@ == old(self)@.insert(at as int, val),
            at > old(self)@.len() ==> r == Err::<(), LinkedListError>(
                LinkedListError::InsertOutOfRange,
            ) && final(self)@ == old(self)@,
    {
        if at == 0 {
            self.push_head(val);
            assert(final(self)@ =~= old(self)@.insert(at as int, val));
            Ok(())
        } else if at <= self.len {
            let mut head = self.head.take().unwrap();
            head.insert_at(val, at);
            self.head = Some(head);
            self.len = self.len + 1;
            Ok(())
        } else {
            Err(LinkedListError::InsertOutOfRange)
        }
    }

    /// Removes the value at index `at` and returns it.
    pub fn remove(&mut self, at: usize) -> (r: Result<T, LinkedListError>)
        requires
            old(self).wf(),
        ensures
            final(self).wf(),
            old(self)@.len() == 0 ==> r == Err::<T, LinkedListError>(
                LinkedListError::RemoveFromEmptyList,
            ) && final(self)@ == old(self)@,
            0 < old(self)@.len() <= at ==> r == Err::<T, LinkedListError>(
                LinkedListError::RemoveOutOfRange,
            ) && final(self)@ == old(self)@,
            at < old(self)@.len() ==> r == Ok::<T, LinkedListError>(old(self)@[at as int])
                && final(self)@ == old(self)@.remove(at as int),
    {
        if self.len == 0 {
            Err(LinkedListError::RemoveFromEmptyList)
        } else if at == 0 {
            let r = self.pop_head();
            assert(final(self)@ =~= old(self)@.remove(at as int));
            r
        } else if at < self.len {
            let mut head = self.head.take().unwrap();
            let v = head.remove_at(at);
            self.head = Some(head);
            self.len = self.len - 1;
            Ok(v)
        } else {
            Err(LinkedListError::RemoveOutOfRange)
        }
    }

    /// The indices, in increasing order, of the values equal to `val`.
    pub fn val2ix(&self, val: &T) -> (r: Vec<usize>)
        requires
            self.wf(),
        ensures
            T::obeys_eq_spec() ==> r@ == indices_of(self@, *val),
    {
        let mut res: Vec<usize> = Vec::new();
        let mut current = &self.head;
        let mut ix: usize = 0;
        while current.is_some()
            invariant
                self.wf(),
                ix + LinkedListNode::chain_values(*current).len() == self@.len(),
                LinkedListNode::chain_values(*current) == self@.subrange(ix as int, self@.len() as int),
                T::obeys_eq_spec() ==> res@ == indices_of(self@.subrange(0, ix as int), *val),
            decreases LinkedListNode::chain_values(*current).len(),
        {
            let node = current.as_ref().unwrap();
            let same = node.value == *val;
            proof {
                assert(LinkedListNode::chain_values(*current) == node.values());
                assert(node.values() =~= seq![node.value] + LinkedListNode::chain_values(node.next));
                assert(node.values()[0] == self@[ix as int]);
                let prefix = self@.subrange(0, ix as int + 1);
                assert(prefix.drop_last() =~= self@.subrange(0, ix as int));
                assert(prefix.last() == node.value);
                assert(LinkedListNode::chain_values(node.next) =~= node.values().subrange(1, node.values().len() as int));
                assert(LinkedListNode::chain_values(node.next) =~= self@.subrange(ix as int + 1, self@.len() as int));
            }
            if same {
                res.push(ix);
            }
            ix = ix + 1;
            current = &node.next;
        }
        assert(self@.subrange(0, ix as int) =~= self@);
        res
    }

    /// A clone of the value at index `ix`, or `None` when `ix` is out of range.
    pub fn ix2val(&self, ix: usize) -> (r: Option<T>)
        requires
            self.wf(),
        ensures
            ix >= self@.len() ==> r is None,
            ix < self@.len() ==> r is Some && cloned(self@[ix as int], r->0),
    {
        if ix >= self.len {
            return None;
        }
        let mut current = self.head.as_ref().unwrap();
        let mut i: usize = 0;
        while i < ix
            invariant
                i <= ix < self@.len(),
                current.values() == self@.subrange(i as int, self@.len() as int),
            decreases ix - i,
        {
            assert(current.values() =~= seq![current.value] + LinkedListNode::chain_values(current.next));
            assert(LinkedListNode::chain_values(current.next) =~= current.values().subrange(1, current.values().len() as int));
            let prev = current;
            current = current.next.as_ref().unwrap();
            assert(LinkedListNode::chain_values(prev.next) == current.values());
            assert(current.values() =~= self@.subrange(i + 1, self@.len() as int));
            i = i + 1;
        }
        assert(current.values()[0] == self@[ix as int]);
        Some(current.value.clone())
    }

    /// The same as [`LinkedList::ix2val`].
    pub fn get(&self, ix: usize) -> (r: Option<T>)
        requires
            self.wf(),
        ensures
            ix >= self@.len() ==> r is None,
            ix < self@.len() ==> r is Some && cloned(self@[ix as int], r->0),
    {
        self.ix2val(ix)
    }

    /// The number of values.
    pub fn len(&self) -> (r: usize)
        requires
            self.wf(),
        ensures
            r == self@.len(),
    {
        self.len
    }

    /// Whether the list holds no value.
    pub fn is_empty(&self) -> (r: bool)
        requires
            self.wf(),
        ensures
            r == (self@.len() == 0),
    {
        self.len == 0
    }

    /// Drops every node, leaving an empty list.
    pub fn clean(&mut self)
        ensures
            final(self).wf(),
            final(self)@ == Seq::<T>::empty(),
    {
        self.head = None;
        self.len = 0;
    }

    /// A list holding the values of `vals` in the same order.
    pub fn from_iter(vals: Vec<T>) -> (r: Self)
        ensures
            r.wf(),
            r@ == vals@,
    {
        let mut vals = vals;
        let ghost all = vals@;
        let n = vals.len();
        let mut list = LinkedList::new();
        while vals.len() > 0
            invariant
                all.len() == n,
                list.wf(),
                all == vals@ + list@,
            decreases vals.len(),
        {
            let v = vals.pop().unwrap();
            list.push_head(v);
            assert(all =~= vals@ + list@);
        }
        assert(all =~= list@);
        list
    }
}

impl<T: Render> LinkedList<T> {
    /// The text of the list: `"(v1 -> v2 -> ... -> vk)"`, or `"()"` when empty.
    pub fn to_display_string(&self) -> (r: String)
        requires
            self.wf(),
        ensures
            r@ == display_of(self@),
    {
        let mut s = String::new();
        proof {
            reveal_strlit("(");
            reveal_strlit(")");
        }
        s.append("(");
        let mut current = &self.head;
        let mut first = true;
        let ghost mut ix: int = 0;
        let ghost mut done: Seq<Seq<char>> = Seq::empty();
        assert(s@ =~= seq!['('] + crate::render::joined(done));
        while current.is_some()
            invariant
                0 <= ix <= self@.len(),
                LinkedListNode::chain_values(*current) == self@.subrange(ix, self@.len() as int),
                done == self@.subrange(0, ix).map_values(|v: T| v.rendered()),
                first == (done.len() == 0),
                s@ == seq!['('] + crate::render::joined(done),
            decreases self@.len() - ix,
        {
            let node = current.as_ref().unwrap();
            proof {
                assert(LinkedListNode::chain_values(*current) == node.values());
                assert(node.values() =~= seq![node.value] + LinkedListNode::chain_values(node.next));
                assert(node.values()[0] == self@[ix]);
                assert(LinkedListNode::chain_values(node.next) =~= node.values().subrange(1, node.values().len() as int));
            }
            let part = node.value.render();
            append_part(&mut s, part.as_str(), first, Ghost(done));
            proof {
                done = done.push(part@);
                ix = ix + 1;
                assert(done =~= self@.subrange(0, ix).map_values(|v: T| v.rendered()));
            }
            first = false;
            current = &node.next;
        }
        assert(self@.subrange(0, ix) =~= self@);
        s.append(")");
        s
    }
}

impl<T> LinkedList<T> {
    /// Hands the nodes over to a consuming iterator.
    pub fn into_iter(self) -> (r: LinkedListIterator<T>)
        ensures
            r@ == self@,
    {
        LinkedListIterator::new(self.head)
    }

    /// An iterator over mutable references to the values, head first.
    ///
    /// What the list holds afterwards is what the chain behind the iterator's first
    /// cursor ends up holding. The list stays well formed exactly when that chain
    /// keeps its length, as it does when only the values handed out are changed.
    pub fn iter_mut(&mut self) -> (r: LinkedListBorrowMutIterator<'_, T>)
        requires
            old(self).wf(),
        ensures
            r.rest() == old(self)@,
            r.cursor() is None <==> r.rest().len() == 0,
            final(self)@ == (match r.cursor() {
                None => Seq::<T>::empty(),
                Some(n) => (*final(n)).values(),
            }),
            final(self).wf() <==> final(self)@.len() == old(self)@.len(),
    {
        LinkedListBorrowMutIterator::new(self.head.as_mut())
    }

    /// A read-only iterator over the values, head first.
    pub fn iter(&self) -> (r: LinkedListBorrowIterator<'_, T>)
        ensures
            r@ == self@,
    {
        LinkedListBorrowIterator::new(self.head.as_ref())
    }
}

impl<T> Default for LinkedList<T> {
    /// An empty list.
    fn default() -> (r: Self)
        ensures
            r.wf(),
            r@ == Seq::<T>::empty(),
    {
        LinkedList { len: 0, head: None }
    }
}

impl<T: Clone> LinkedListNode<T> {
    /// A copy of the chain at `link`, each value cloned.
    fn clone_chain(link: &Option<Box<LinkedListNode<T>>>) -> (r: Option<Box<LinkedListNode<T>>>)
        ensures
            Self::chain_values(r).len() == Self::chain_values(*link).len(),
            forall|i: int|
                0 <= i < Self::chain_values(r).len() ==> cloned(
                    #[trigger] Self::chain_values(*link)[i],
                    Self::chain_values(r)[i],
                ),
        decreases *link,
    {
        match link {
            None => None,
            Some(node) => {
                let value = node.value.clone();
                let next = Self::clone_chain(&node.next);
                let r = Some(Box::new(LinkedListNode { value, next }));
                assert(forall|i: int|
                    0 < i < Self::chain_values(r).len() ==> Self::chain_values(r)[i]
                        == Self::chain_values(next)[i - 1] && Self::chain_values(*link)[i]
                        == Self::chain_values(node.next)[i - 1]);
                r
            },
        }
    }
}

impl<T: Clone> Clone for LinkedList<T> {
    /// A list of clones of this list's values, in the same order.
    fn clone(&self) -> (r: Self)
        ensures
            self.wf() ==> r.wf(),
            r@.len() == self@.len(),
            forall|i: int| 0 <= i < r@.len() ==> cloned(#[trigger] self@[i], r@[i]),
    {
        LinkedList { len: self.len, head: LinkedListNode::clone_chain(&self.head) }
    }
}

/// A consuming iterator: it owns the nodes that it has not handed out yet.
pub struct LinkedListIterator<T> {
    current: Option<Box<LinkedListNode<T>>>,
}

impl<T> View for LinkedListIterator<T> {
    type V = Seq<T>;

    /// The values still to come.
    closed spec fn view(&self) -> Seq<T> {
        LinkedListNode::chain_values(self.current)
    }
}

impl<T> LinkedListIterator<T> {
    /// An iterator over the chain that starts at `head`.
    pub fn new(head: Option<Box<LinkedListNode<T>>>) -> (r: LinkedListIterator<T>)
        ensures
            r@ == LinkedListNode::chain_values(head),
    {
        LinkedListIterator { current: head }
    }

    /// The next value, or `None` at the end of the chain.
    pub fn next(&mut self) -> (r: Option<T>)
        ensures
            old(self)@.len() == 0 ==> r is None && final(self)@ == old(self)@,
            old(self)@.len() > 0 ==> r == Some(old(self)@[0]) && final(self)@ == old(self)@.drop_first(),
    {
        match self.current.take() {
            None => None,
            Some(boxed) => {
                let node = *boxed;
                assert(node.values().drop_first() =~= LinkedListNode::chain_values(node.next));
                self.current = node.next;
                Some(node.value)
            },
        }
    }

    /// All the values still to come, in order.
    pub fn into_vec(self) -> (r: Vec<T>)
        ensures
            r@ == self@,
    {
        let mut it = self;
        let ghost all = it@;
        let mut r: Vec<T> = Vec::new();
        while it.current.is_some()
            invariant
                all == r@ + it@,
            decreases it@.len(),
        {
            let v = it.next().unwrap();
            r.push(v);
            assert(all =~= r@ + it@);
        }
        assert(all =~= r@);
        r
    }
}

/// The values of a borrowed chain, first node first.
pub open spec fn borrowed_values<T>(link: Option<&Box<LinkedListNode<T>>>) -> Seq<T> {
    match link {
        None => Seq::empty(),
        Some(node) => node.values(),
    }
}

/// A read-only iterator over the values of a list.
pub struct LinkedListBorrowIterator<'a, T> {
    current: Option<&'a Box<LinkedListNode<T>>>,
}

impl<'a, T> View for LinkedListBorrowIterator<'a, T> {
    type V = Seq<T>;

    /// The values still to come.
    closed spec fn view(&self) -> Seq<T> {
        borrowed_values(self.current)
    }
}

impl<'a, T> LinkedListBorrowIterator<'a, T> {
    /// An iterator over the chain that starts at `head`.
    pub fn new(head: Option<&'a Box<LinkedListNode<T>>>) -> (r: LinkedListBorrowIterator<'a, T>)
        ensures
            r@ == borrowed_values(head),
    {
        LinkedListBorrowIterator { current: head }
    }

    /// A reference to the next value, or `None` at the end of the chain.
    pub fn next(&mut self) -> (r: Option<&'a T>)
        ensures
            old(self)@.len() == 0 ==> r is None && final(self)@ == old(self)@,
            old(self)@.len() > 0 ==> r is Some && *r->0 == old(self)@[0] && final(self)@
                == old(self)@.drop_first(),
    {
        match self.current.take() {
            None => None,
            Some(node) => {
                assert(node.values().drop_first() =~= LinkedListNode::chain_values(node.next));
                self.current = node.next.as_ref();
                Some(&node.value)
            },
        }
    }
}


/// An iterator handing out mutable references to the values of a list, head first.
///
/// The values are changed in place: no node is made or dropped.
pub struct LinkedListBorrowMutIterator<'a, T> {
    current: Option<&'a mut Box<LinkedListNode<T>>>,
}

impl<'a, T> LinkedListBorrowMutIterator<'a, T> {
    /// The borrowed rest of the chain.
    pub closed spec fn cursor(&self) -> Option<&'a mut Box<LinkedListNode<T>>> {
        self.current
    }

    /// The values still to come, as they are now.
    pub closed spec fn rest(&self) -> Seq<T> {
        match self.current {
            None => Seq::empty(),
            Some(node) => node.values(),
        }
    }

    /// An iterator over the borrowed chain that starts at `head`.
    pub fn new(head: Option<&'a mut Box<LinkedListNode<T>>>) -> (r: LinkedListBorrowMutIterator<'a, T>)
        ensures
            r.cursor() == head,
            r.cursor() is None <==> r.rest().len() == 0,
    {
        LinkedListBorrowMutIterator { current: head }
    }

    /// A mutable reference to the next value, or `None` at the end of the chain.
    ///
    /// The node behind the cursor ends up holding what the caller leaves behind
    /// that reference, followed by what becomes of the rest of the chain.
    pub fn next(&mut self) -> (r: Option<&'a mut T>)
        ensures
            final(self).cursor() is None <==> final(self).rest().len() == 0,
            old(self).rest().len() == 0 ==> r is None && final(self).rest().len() == 0,
            old(self).rest().len() > 0 ==> r is Some && *r->0 == old(self).rest()[0]
                && final(self).rest() == old(self).rest().drop_first()
                && (*final(old(self).cursor()->0)).values() == seq![*final(r->0)] + (match final(self).cursor() {
                None => Seq::<T>::empty(),
                Some(n) => (*final(n)).values(),
            }),
    {
        match self.current.take() {
            None => None,
            Some(node) => {
                let LinkedListNode { value, next } = &mut **node;
                self.current = next.as_mut();
                Some(value)
            },
        }
    }
}

/// Removing the last value (`remove(len - 1)`) and appending it again
/// (`push_back`) gives back a list with the same text.
pub proof fn lemma_remove_last_then_push_back<T: Render>(l: LinkedList<T>)
    requires
        l.wf(),
        l@.len() > 0,
    ensures
        ({
            let n = l@.len() - 1;
            display_of(l@.remove(n).push(l@[n])) == display_of(l@)
        }),
{
    let n = l@.len() - 1;
    assert(l@.remove(n).push(l@[n]) =~= l@);
}

/// `push_head(v)` followed by `pop_head()` hands back `v` and the list it started from.
pub proof fn lemma_push_head_then_pop_head<T>(l: LinkedList<T>, v: T)
    requires
        l.wf(),
        l@.len() < usize::MAX,
    ensures
        (seq![v] + l@).len() > 0,
        (seq![v] + l@)[0] == v,
        (seq![v] + l@).drop_first() == l@,
        (seq![v] + l@).drop_first().len() == l@.len(),
{
    assert((seq![v] + l@).drop_first() =~= l@);
}

/// A list built by `from_iter(vals)` holds, at each index, the value of `vals` there.
pub proof fn lemma_from_iter_then_get<T>(vals: Seq<T>, l: LinkedList<T>)
    requires
        l.wf(),
        l@ == vals,
    ensures
        l@.len() == vals.len(),
        forall|i: int| 0 <= i < vals.len() ==> #[trigger] l@[i] == vals[i],
{
}

/// Collecting a list through its consuming iterator (`into_iter`, then `into_vec`)
/// and building a list from the result (`from_iter`) gives a list with the same text.
pub proof fn lemma_round_trip<T: Render>(
    l: LinkedList<T>,
    it: LinkedListIterator<T>,
    collected: Seq<T>,
    rebuilt: LinkedList<T>,
)
    requires
        l.wf(),
        it@ == l@,
        collected == it@,
        rebuilt@ == collected,
    ensures
        display_of(rebuilt@) == display_of(l@),
        rebuilt@ == l@,
{
}

/// After `clean`, and after a second `clean`, the list is empty and reads `"()"`.
pub proof fn lemma_clean_twice<T: Render>(once: LinkedList<T>, twice: LinkedList<T>)
    requires
        once@ == Seq::<T>::empty(),
        twice@ == Seq::<T>::empty(),
    ensures
        once@.len() == 0,
        twice@.len() == 0,
        display_of(once@) == seq!['(', ')'],
        display_of(twice@) == seq!['(', ')'],
{
    crate::render::lemma_display_empty::<T>();
}

} // verus!
