//! An unbalanced binary search tree with set semantics, whose nodes own their subtrees.

use crate::order::{lemma_total_order, lt, total_order};
use crate::tree::{lemma_inserted, lemma_removed, lemma_rightmost, Tree};
use core::cmp::Ordering;
use vstd::prelude::*;

verus! {

/// A binary search tree of distinct values.
///
/// A node holds no value only when it is the root of an empty tree; a child link
/// always leads to a node that holds a value.
pub struct BinaryTree<T> where T: Ord + Copy {
    val: Option<T>,
    left: Option<Box<BinaryTree<T>>>,
    right: Option<Box<BinaryTree<T>>>,
}

impl<T> View for BinaryTree<T> where T: Ord + Copy {
    type V = Tree<T>;

    open spec fn view(&self) -> Tree<T> {
        self.model()
    }
}

impl<T> BinaryTree<T> where T: Ord + Copy {
    /// The tree that a child link leads to; an absent link is the empty tree.
    pub closed spec fn link_model(link: Option<Box<BinaryTree<T>>>) -> Tree<T>
        decreases link,
    {
        match link {
            None => Tree::Leaf,
            Some(node) => node.model(),
        }
    }

    /// The tree of values that this node roots.
    pub closed spec fn model(self) -> Tree<T>
        decreases self,
    {
        match self.val {
            None => Tree::Leaf,
            Some(v) => Tree::Node {
                left: Box::new(Self::link_model(self.left)),
                val: v,
                right: Box::new(Self::link_model(self.right)),
            },
        }
    }

    /// A child link is absent or leads to a pruned node that holds a value.
    pub closed spec fn link_pruned(link: Option<Box<BinaryTree<T>>>) -> bool
        decreases link,
    {
        match link {
            None => true,
            Some(node) => node.val is Some && node.pruned(),
        }
    }

    /// No hollow structure: a node without a value has no children, and no child link
    /// anywhere below leads to a node without a value.
    pub closed spec fn pruned(self) -> bool
        decreases self,
    {
        &&& self.val is None ==> self.left is None && self.right is None
        &&& Self::link_pruned(self.left)
        &&& Self::link_pruned(self.right)
    }

    /// Pruned, and ordered as a search tree.
    pub closed spec fn well_formed(self) -> bool {
        self.pruned() && self@.is_bst()
    }

    /// A child link that is absent or leads to a pruned node, which may have been emptied.
    spec fn link_loose(link: Option<Box<BinaryTree<T>>>) -> bool {
        match link {
            None => true,
            Some(node) => node.pruned(),
        }
    }

    /// An empty tree.
    pub fn new() -> (t: BinaryTree<T>)
        ensures
            t.well_formed(),
            t@ == Tree::<T>::Leaf,
    {
        BinaryTree { val: None, left: None, right: None }
    }

    /// The value at the root; `None` for the empty tree.
    pub fn value(&self) -> (r: Option<T>)
        ensures
            r == self@.root_value(),
    {
        self.val
    }

    /// The left subtree, when it is not empty.
    pub fn left(&self) -> (r: Option<&BinaryTree<T>>)
        requires
            self.well_formed(),
        ensures
            r is Some <==> self@.left_subtree() is Node,
            r is Some ==> r.unwrap().well_formed() && r.unwrap()@ == self@.left_subtree(),
    {
        match &self.left {
            None => None,
            Some(t) => Some(&**t),
        }
    }

    /// The right subtree, when it is not empty.
    pub fn right(&self) -> (r: Option<&BinaryTree<T>>)
        requires
            self.well_formed(),
        ensures
            r is Some <==> self@.right_subtree() is Node,
            r is Some ==> r.unwrap().well_formed() && r.unwrap()@ == self@.right_subtree(),
    {
        match &self.right {
            None => None,
            Some(t) => Some(&**t),
        }
    }

    /// Inserts `val`. When an equal value is already in the tree, the tree is left as it
    /// is and that value comes back as the error.
    pub fn insert(&mut self, val: T) -> (r: Result<T, T>)
        requires
            total_order::<T>(),
            old(self).well_formed(),
        ensures
            final(self).well_formed(),
            final(self)@ == old(self)@.inserted(val),
            r == (if old(self)@.contents().contains(val) {
                Err::<T, T>(val)
            } else {
                Ok::<T, T>(val)
            }),
        decreases *old(self),
    {
        proof {
            lemma_total_order::<T>();
            lemma_inserted(self@, val);
        }
        let cur = match self.val {
            None => {
                self.val = Some(val);
                return Ok(val);
            },
            Some(cur) => cur,
        };
        match val.cmp(&cur) {
            Ordering::Less => {
                proof {
                    if Self::link_model(self.right).contents().contains(val) {
                        assert(lt(cur, val));
                    }
                }
                Self::insert_below(&mut self.left, val)
            },
            Ordering::Greater => {
                proof {
                    if Self::link_model(self.left).contents().contains(val) {
                        assert(lt(val, cur));
                    }
                }
                Self::insert_below(&mut self.right, val)
            },
            Ordering::Equal => Err(cur),
        }
    }

    /// Inserts `val` into the subtree behind `link`, giving it a new node when absent.
    fn insert_below(link: &mut Option<Box<BinaryTree<T>>>, val: T) -> (r: Result<T, T>)
        requires
            total_order::<T>(),
            Self::link_pruned(*old(link)),
            Self::link_model(*old(link)).is_bst(),
        ensures
            Self::link_pruned(*final(link)),
            Self::link_model(*final(link)) == Self::link_model(*old(link)).inserted(val),
            r == (if Self::link_model(*old(link)).contents().contains(val) {
                Err::<T, T>(val)
            } else {
                Ok::<T, T>(val)
            }),
        decreases *old(link),
    {
        match link.take() {
            None => {
                let mut t = BinaryTree::<T>::new();
                t.val = Some(val);
                *link = Some(Box::new(t));
                Ok(val)
            },
            Some(mut t) => {
                let r = (&mut *t).insert(val);
                *link = Some(t);
                r
            },
        }
    }

    /// Removes `val` and returns it; when it is not in the tree, the tree is left as it
    /// is and `val` comes back as the error.
    pub fn remove(&mut self, val: T) -> (r: Result<T, T>)
        requires
            total_order::<T>(),
            old(self).well_formed(),
        ensures
            final(self).well_formed(),
            final(self).pruned(),
            final(self)@ == old(self)@.removed(val),
            r == (if old(self)@.contents().contains(val) {
                Ok::<T, T>(val)
            } else {
                Err::<T, T>(val)
            }),
        decreases *old(self),
    {
        proof {
            lemma_total_order::<T>();
            lemma_removed(self@, val);
        }
        let cur = match self.val {
            None => return Err(val),
            Some(cur) => cur,
        };
        let result = match val.cmp(&cur) {
            Ordering::Less => {
                proof {
                    if Self::link_model(self.right).contents().contains(val) {
                        assert(lt(cur, val));
                    }
                }
                Self::remove_below(&mut self.left, val)
            },
            Ordering::Greater => {
                proof {
                    if Self::link_model(self.left).contents().contains(val) {
                        assert(lt(val, cur));
                    }
                }
                Self::remove_below(&mut self.right, val)
            },
            Ordering::Equal => {
                self.val = None;
                if self.left.is_none() && self.right.is_none() {
                    // The node stays, empty; its parent prunes it.
                } else if self.right.is_none() {
                    let child = self.left.take().unwrap();
                    assert(child.pruned());
                    *self = *child;
                } else if self.left.is_none() {
                    let child = self.right.take().unwrap();
                    assert(child.pruned());
                    *self = *child;
                } else {
                    let mut l = self.left.take().unwrap();
                    proof {
                        lemma_rightmost(l@);
                    }
                    let v = (&mut *l).collapse_rightmost();
                    self.val = Some(v);
                    self.left = Some(l);
                }
                Ok(cur)
            },
        };
        self.prune();
        result
    }

    /// Removes `val` from the subtree behind `link`. The node there may be left empty.
    fn remove_below(link: &mut Option<Box<BinaryTree<T>>>, val: T) -> (r: Result<T, T>)
        requires
            total_order::<T>(),
            Self::link_pruned(*old(link)),
            Self::link_model(*old(link)).is_bst(),
        ensures
            Self::link_loose(*final(link)),
            Self::link_model(*final(link)) == Self::link_model(*old(link)).removed(val),
            r == (if Self::link_model(*old(link)).contents().contains(val) {
                Ok::<T, T>(val)
            } else {
                Err::<T, T>(val)
            }),
        decreases *old(link),
    {
        match link.take() {
            None => Err(val),
            Some(mut t) => {
                let r = (&mut *t).remove(val);
                *link = Some(t);
                r
            },
        }
    }

    /// Takes the rightmost value out of this subtree. Its node gives way to its left
    /// child, or is left empty when it has none.
    fn collapse_rightmost(&mut self) -> (r: T)
        requires
            total_order::<T>(),
            old(self).well_formed(),
            old(self).val is Some,
        ensures
            final(self).pruned(),
            final(self)@ == old(self)@.without_rightmost(),
            r == old(self)@.rightmost(),
        decreases *old(self),
    {
        match self.right.take() {
            None => {
                let v = self.val.unwrap();
                match self.left.take() {
                    None => {
                        self.val = None;
                    },
                    Some(l) => {
                        *self = *l;
                    },
                }
                v
            },
            Some(mut t) => {
                let v = (&mut *t).collapse_rightmost();
                self.right = Some(t);
                self.prune();
                v
            },
        }
    }

    /// Drops each child link that leads to a node with no value and no children.
    fn prune(&mut self)
        requires
            old(self).val is None ==> old(self).left is None && old(self).right is None,
            Self::link_loose(old(self).left),
            Self::link_loose(old(self).right),
        ensures
            final(self).pruned(),
            final(self)@ == old(self)@,
    {
        let del_left = match &self.left {
            None => false,
            Some(t) => t.val.is_none() && t.left.is_none() && t.right.is_none(),
        };
        let del_right = match &self.right {
            None => false,
            Some(t) => t.val.is_none() && t.left.is_none() && t.right.is_none(),
        };
        proof {
            if del_left {
                assert(Self::link_model(self.left) == Tree::<T>::Leaf);
            }
            if del_right {
                assert(Self::link_model(self.right) == Tree::<T>::Leaf);
            }
        }
        if del_left {
            self.left = None;
        }
        if del_right {
            self.right = None;
        }
    }
}

} // verus!
