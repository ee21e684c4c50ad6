use vstd::prelude::*;

verus! {

/// A minimal stack-like list that only grows and shrinks at its head.
#[derive(Debug)]
pub struct LinkedList<T> {
    head: Option<Box<Node<T>>>,
}

/// One cell of a [`LinkedList`].
#[derive(Debug)]
pub struct Node<T> {
    value: T,
    next: Option<Box<Node<T>>>,
}

impl<T> Node<T> {
    /// The values held from this node to the end of its chain.
    pub closed spec fn values(self) -> Seq<T>
        decreases self,
    {
        seq![self.value] + Self::chain_values(self.next)
    }

    /// The values held by an optional chain, head first.
    pub closed spec fn chain_values(link: Option<Box<Node<T>>>) -> Seq<T>
        decreases link,
    {
        match link {
            None => Seq::empty(),
            Some(node) => node.values(),
        }
    }
}

impl<T: Clone> Node<T> {
    /// A copy of the chain at `link`, each value cloned.
    fn clone_chain(link: &Option<Box<Node<T>>>) -> (r: Option<Box<Node<T>>>)
        ensures
            Self::chain_values(r).len() == Self::chain_values(*link).len(),
            forall|i: int|
                0 <= i < Self::chain_values(r).len() ==> cloned(
                    #[trigger] Self::chain_values(*link)[i],
                    Self::chain_values(r)[i],
                ),
        decreases *link,
    {
        match link {
            None => None,
            Some(node) => {
                let value = node.value.clone();
                let next = Self::clone_chain(&node.next);
                let r = Some(Box::new(Node { value, next }));
                assert(forall|i: int| 0 < i < Self::chain_values(r).len() ==>
                    Self::chain_values(r)[i] == Self::chain_values(next)[i - 1]
                    && Self::chain_values(*link)[i] == Self::chain_values(node.next)[i - 1]);
                r
            },
        }
    }
}

impl<T: Clone> Clone for LinkedList<T> {
    /// A list of clones of this list's values, in the same order.
    fn clone(&self) -> (r: Self)
        ensures
            r@.len() == self@.len(),
            forall|i: int| 0 <= i < r@.len() ==> cloned(#[trigger] self@[i], r@[i]),
    {
        LinkedList { head: Node::clone_chain(&self.head) }
    }
}

impl<T> View for LinkedList<T> {
    type V = Seq<T>;

    /// The values of the list, head first.
    closed spec fn view(&self) -> Seq<T> {
        Node::chain_values(self.head)
    }
}

impl<T> LinkedList<T> {
    /// An empty list.
    pub fn new() -> (r: Self)
        ensures
            r@ == Seq::<T>::empty(),
    {
        LinkedList { head: None }
    }

    /// Puts `value` in front of the list.
    pub fn push(&mut self, value: T)
        ensures
            final(self)@ == seq![value] + old(self)@,
    {
        let next = self.head.take();
        self.head = Some(Box::new(Node { value, next }));
    }

    /// Takes the first value off the list, or `None` when it is empty.
    pub fn pop(&mut self) -> (r: Option<T>)
        ensures
            old(self)@.len() == 0 ==> r is None && final(self)@ == old(self)@,
            old(self)@.len() > 0 ==> r == Some(old(self)@[0]) && final(self)@ == old(self)@.drop_first(),
    {
        match self.head.take() {
            None => None,
            Some(node) => {
                let node = *node;
                assert(node.values().drop_first() =~= Node::chain_values(node.next));
                self.head = node.next;
                Some(node.value)
            },
        }
    }

    /// The number of values, counted by walking the chain.
    pub fn len(&self) -> (r: usize)
        requires
            self@.len() <= usize::MAX,
        ensures
            r == self@.len(),
    {
        let mut current = &self.head;
        let mut length: usize = 0;
        while current.is_some()
            invariant
                self@.len() <= usize::MAX,
                length + Node::chain_values(*current).len() == self@.len(),
            decreases Node::chain_values(*current).len(),
        {
            let node = current.as_ref().unwrap();
            length = length + 1;
            current = &node.next;
        }
        length
    }

    /// Whether the list holds no value.
    pub fn is_empty(&self) -> (r: bool)
        ensures
            r == (self@.len() == 0),
    {
        self.head.is_none()
    }
}

} // verus!
