//! A list that grows at both ends, whose nodes reach the next and the
//! previous ones.

use vstd::prelude::*;
use std::collections::VecDeque;

verus! {

broadcast use vstd::std_specs::vecdeque::axiom_spec_len;

/// A list of values, first to last.
pub struct UnsafeList<T> {
    items: VecDeque<T>,
}

/// A node of a list: a position in it, from which the value there and the
/// neighbouring nodes are reached.
pub struct Node<'a, T> {
    items: &'a VecDeque<T>,
    pos: usize,
}

impl<T> View for UnsafeList<T> {
    type V = Seq<T>;

    closed spec fn view(&self) -> Seq<T> {
        self.items@
    }
}

impl<'a, T> Node<'a, T> {
    /// The values of the whole list the node is in, first to last.
    pub closed spec fn list(&self) -> Seq<T> {
        self.items@
    }

    /// The position of the node in its list (0 for the first).
    pub closed spec fn pos(&self) -> nat {
        self.pos as nat
    }

    /// A node is at a position of its list.
    #[verifier::type_invariant]
    spec fn inv(self) -> bool {
        self.pos < self.items@.len()
    }

    /// The next node, if any.
    pub fn next(&self) -> (r: Option<Node<'a, T>>)
        ensures
            match r {
                Some(n) => n.list() == self.list() && n.pos() == self.pos() + 1,
                None => self.pos() + 1 == self.list().len(),
            },
    {
        proof {
            use_type_invariant(self);
        }
        let n = self.items.len();
        if n - self.pos > 1 {
            Some(Node { items: self.items, pos: self.pos + 1 })
        } else {
            None
        }
    }

    /// The previous node, if any.
    pub fn prev(&self) -> (r: Option<Node<'a, T>>)
        ensures
            match r {
                Some(n) => n.list() == self.list() && n.pos() + 1 == self.pos(),
                None => self.pos() == 0,
            },
    {
        proof {
            use_type_invariant(self);
        }
        if self.pos > 0 {
            Some(Node { items: self.items, pos: self.pos - 1 })
        } else {
            None
        }
    }

    /// The value of the node.
    pub fn value(&self) -> (r: &'a T)
        ensures
            self.pos() < self.list().len(),
            *r == self.list()[self.pos() as int],
    {
        proof {
            use_type_invariant(self);
        }
        &self.items[self.pos]
    }
}

impl<T> UnsafeList<T> {
    /// An empty list.
    pub fn new() -> (r: Self)
        ensures
            r@ == Seq::<T>::empty(),
    {
        UnsafeList { items: VecDeque::new() }
    }

    /// The number of values.
    pub fn len(&self) -> (r: usize)
        ensures
            r == self@.len(),
    {
        self.items.len()
    }

    /// Puts a value in front of the list; gives the new first node, which
    /// has no previous node and whose next node holds the old first value.
    pub fn push_front(&mut self, val: T) -> (r: Node<'_, T>)
        ensures
            final(self)@ == seq![val] + old(self)@,
            r.list() == final(self)@,
            r.pos() == 0,
    {
        self.items.push_front(val);
        Node { items: &self.items, pos: 0 }
    }

    /// Puts a value at the end of the list; gives the new last node, which
    /// has no next node and whose previous node holds the old last value.
    pub fn push_back(&mut self, val: T) -> (r: Node<'_, T>)
        ensures
            final(self)@ == old(self)@.push(val),
            r.list() == final(self)@,
            r.pos() == old(self)@.len(),
    {
        self.items.push_back(val);
        let n = self.items.len();
        Node { items: &self.items, pos: n - 1 }
    }

    /// The first node, if any.
    pub fn front(&self) -> (r: Option<Node<'_, T>>)
        ensures
            match r {
                Some(n) => n.list() == self@ && n.pos() == 0,
                None => self@.len() == 0,
            },
    {
        if self.items.len() > 0 {
            Some(Node { items: &self.items, pos: 0 })
        } else {
            None
        }
    }

    /// The last node, if any.
    pub fn back(&self) -> (r: Option<Node<'_, T>>)
        ensures
            match r {
                Some(n) => n.list() == self@ && n.pos() + 1 == self@.len(),
                None => self@.len() == 0,
            },
    {
        let n = self.items.len();
        if n > 0 {
            Some(Node { items: &self.items, pos: n - 1 })
        } else {
            None
        }
    }
}

} // verus!
