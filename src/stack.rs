//! A singly linked LIFO stack, emptied by popping.

use vstd::prelude::*;

verus! {

/// A stack of values; the top node owns the rest of the chain.
pub struct Stack<T> {
    top: Option<Box<StackNode<T>>>,
}

/// One value and the chain of nodes beneath it.
struct StackNode<T> {
    val: T,
    next: Option<Box<StackNode<T>>>,
}

impl<T> StackNode<T> {
    /// The values of the chain behind `link`, from the nearest down.
    spec fn link_values(link: Option<Box<StackNode<T>>>) -> Seq<T>
        decreases link,
    {
        match link {
            None => Seq::empty(),
            Some(node) => seq![node.val] + Self::link_values(node.next),
        }
    }

    /// A node that ends the chain.
    fn new(val: T) -> (node: StackNode<T>)
        ensures
            node.val == val,
            node.next is None,
    {
        StackNode { val: val, next: None }
    }
}

impl<T> View for Stack<T> {
    type V = Seq<T>;

    /// The values from the top down.
    closed spec fn view(&self) -> Seq<T> {
        StackNode::<T>::link_values(self.top)
    }
}

impl<T> Stack<T> {
    /// An empty stack.
    pub fn new() -> (s: Stack<T>)
        ensures
            s@ == Seq::<T>::empty(),
    {
        Stack { top: None }
    }

    /// Puts `val` on top.
    pub fn push(&mut self, val: T)
        ensures
            final(self)@ == seq![val] + old(self)@,
    {
        let mut node = StackNode::new(val);
        let next = self.top.take();
        node.next = next;
        self.top = Some(Box::new(node));
    }

    /// Takes the top value off; `None` when the stack is empty.
    pub fn pop(&mut self) -> (r: Option<T>)
        ensures
            old(self)@.len() == 0 ==> r is None && final(self)@ == old(self)@,
            old(self)@.len() > 0 ==> r == Some(old(self)@[0]) && final(self)@ == old(self)@.drop_first(),
    {
        let top = self.top.take();
        match top {
            None => None,
            Some(mut node) => {
                self.top = node.next.take();
                Some(node.val)
            },
        }
    }

    /// The next value of a draining walk over the stack: the top one, taken off.
    pub fn next(&mut self) -> (r: Option<T>)
        ensures
            old(self)@.len() == 0 ==> r is None && final(self)@ == old(self)@,
            old(self)@.len() > 0 ==> r == Some(old(self)@[0]) && final(self)@ == old(self)@.drop_first(),
    {
        self.pop()
    }

    /// Pops every value, last pushed first, and hands them back in that order.
    pub fn drain(self) -> (r: Vec<T>)
        ensures
            r@ == self@,
    {
        let mut s = self;
        let mut out: Vec<T> = Vec::new();
        loop
            invariant
                out@ + s@ == self@,
            ensures
                out@ == self@,
            decreases s@.len(),
        {
            match s.pop() {
                None => {
                    assert(out@ =~= self@);
                    break;
                },
                Some(v) => {
                    out.push(v);
                    assert(out@ + s@ =~= self@);
                },
            }
        }
        out
    }
}

} // verus!
