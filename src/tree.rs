//! The mathematical model of a binary search tree, and the laws it obeys.

use crate::order::{lemma_total_order, lt, total_order};
use core::cmp::Ordering;
use vstd::prelude::*;
use vstd::std_specs::cmp::OrdSpec;

verus! {

/// A binary tree of values: empty, or a value with a left and a right subtree.
pub enum Tree<T> {
    Leaf,
    Node { left: Box<Tree<T>>, val: T, right: Box<Tree<T>> },
}

/// Each value of `s` comes strictly before every later one.
pub open spec fn strictly_increasing<T: Ord>(s: Seq<T>) -> bool {
    forall|i: int, j: int| 0 <= i < j < s.len() ==> lt(#[trigger] s[i], #[trigger] s[j])
}

impl<T> Tree<T> {
    /// The tree with `val` alone.
    pub open spec fn single(val: T) -> Tree<T> {
        Tree::Node { left: Box::new(Tree::Leaf), val, right: Box::new(Tree::Leaf) }
    }

    /// The values held anywhere in the tree.
    pub open spec fn contents(self) -> Set<T>
        decreases self,
    {
        match self {
            Tree::Leaf => Set::empty(),
            Tree::Node { left, val, right } => left.contents().union(right.contents()).insert(val),
        }
    }

    /// The number of nodes that hold a value.
    pub open spec fn size(self) -> nat
        decreases self,
    {
        match self {
            Tree::Leaf => 0,
            Tree::Node { left, val, right } => left.size() + 1 + right.size(),
        }
    }

    /// The value at the root, if any.
    pub open spec fn root_value(self) -> Option<T> {
        match self {
            Tree::Leaf => None,
            Tree::Node { val, .. } => Some(val),
        }
    }

    /// The left subtree; the empty tree has an empty one.
    pub open spec fn left_subtree(self) -> Tree<T> {
        match self {
            Tree::Leaf => Tree::Leaf,
            Tree::Node { left, .. } => *left,
        }
    }

    /// The right subtree; the empty tree has an empty one.
    pub open spec fn right_subtree(self) -> Tree<T> {
        match self {
            Tree::Leaf => Tree::Leaf,
            Tree::Node { right, .. } => *right,
        }
    }

    /// The values in in-order: left subtree, then the node, then the right subtree.
    pub open spec fn in_order(self) -> Seq<T>
        decreases self,
    {
        match self {
            Tree::Leaf => Seq::empty(),
            Tree::Node { left, val, right } => left.in_order() + seq![val] + right.in_order(),
        }
    }
}

impl<T: Ord> Tree<T> {
    /// Every node's left subtree holds only smaller values and its right subtree only
    /// greater ones.
    pub open spec fn is_bst(self) -> bool
        decreases self,
    {
        match self {
            Tree::Leaf => true,
            Tree::Node { left, val, right } => {
                &&& forall|x: T| #[trigger] left.contents().contains(x) ==> lt(x, val)
                &&& forall|x: T| #[trigger] right.contents().contains(x) ==> lt(val, x)
                &&& left.is_bst()
                &&& right.is_bst()
            },
        }
    }

    /// The tree after inserting `v`: it descends by comparison and hangs `v` where the
    /// search ends; a value equal to `v` leaves the tree as it is.
    pub open spec fn inserted(self, v: T) -> Tree<T>
        decreases self,
    {
        match self {
            Tree::Leaf => Tree::single(v),
            Tree::Node { left, val, right } => match v.cmp_spec(&val) {
                Ordering::Less => Tree::Node { left: Box::new(left.inserted(v)), val, right },
                Ordering::Greater => Tree::Node { left, val, right: Box::new(right.inserted(v)) },
                Ordering::Equal => self,
            },
        }
    }

    /// The tree after inserting each of `vs`, first to last.
    pub open spec fn inserted_all(self, vs: Seq<T>) -> Tree<T>
        decreases vs.len(),
    {
        if vs.len() == 0 {
            self
        } else {
            self.inserted_all(vs.drop_last()).inserted(vs.last())
        }
    }

    /// The rightmost value: the greatest one of a search tree.
    pub open spec fn rightmost(self) -> T
        recommends
            self is Node,
        decreases self,
    {
        match self {
            Tree::Leaf => arbitrary(),
            Tree::Node { left, val, right } => match *right {
                Tree::Leaf => val,
                _ => right.rightmost(),
            },
        }
    }

    /// The tree without its rightmost node, whose left subtree takes its place.
    pub open spec fn without_rightmost(self) -> Tree<T>
        decreases self,
    {
        match self {
            Tree::Leaf => Tree::Leaf,
            Tree::Node { left, val, right } => match *right {
                Tree::Leaf => *left,
                _ => Tree::Node { left, val, right: Box::new(right.without_rightmost()) },
            },
        }
    }

    /// The tree after removing `v`. The node that holds it is emptied when it has no
    /// child, replaced by its child when it has one, and takes the greatest value of its
    /// left subtree (its predecessor) when it has two.
    pub open spec fn removed(self, v: T) -> Tree<T>
        decreases self,
    {
        match self {
            Tree::Leaf => Tree::Leaf,
            Tree::Node { left, val, right } => match v.cmp_spec(&val) {
                Ordering::Less => Tree::Node { left: Box::new(left.removed(v)), val, right },
                Ordering::Greater => Tree::Node { left, val, right: Box::new(right.removed(v)) },
                Ordering::Equal => match (*left, *right) {
                    (Tree::Leaf, r) => r,
                    (l, Tree::Leaf) => l,
                    (l, r) => Tree::Node {
                        left: Box::new(l.without_rightmost()),
                        val: l.rightmost(),
                        right: Box::new(r),
                    },
                },
            },
        }
    }
}

/// Inserting into a search tree keeps it one, adds `v` to its values, and adds a node
/// exactly when `v` was not there.
pub proof fn lemma_inserted<T: Ord>(t: Tree<T>, v: T)
    requires
        total_order::<T>(),
        t.is_bst(),
    ensures
        t.inserted(v).is_bst(),
        t.inserted(v).contents() == t.contents().insert(v),
        t.inserted(v).size() == t.size() + (if t.contents().contains(v) { 0int } else { 1int }),
        t.contents().contains(v) ==> t.inserted(v) == t,
    decreases t,
{
    lemma_total_order::<T>();
    match t {
        Tree::Leaf => {
            assert(t.inserted(v).contents() =~= t.contents().insert(v));
        },
        Tree::Node { left, val, right } => {
            lemma_inserted(*left, v);
            lemma_inserted(*right, v);
            assert(t.inserted(v).contents() =~= t.contents().insert(v));
            if v.cmp_spec(&val) == Ordering::Less {
                if right.contents().contains(v) {
                    assert(lt(val, v));
                }
            } else if v.cmp_spec(&val) == Ordering::Greater {
                if left.contents().contains(v) {
                    assert(lt(v, val));
                }
            }
        },
    }
}

/// The rightmost value of a non-empty search tree is its greatest; taking its node out
/// keeps a search tree that holds the other values.
pub proof fn lemma_rightmost<T: Ord>(t: Tree<T>)
    requires
        total_order::<T>(),
        t.is_bst(),
        t is Node,
    ensures
        t.contents().contains(t.rightmost()),
        forall|x: T| #[trigger] t.contents().contains(x) && x != t.rightmost() ==> lt(x, t.rightmost()),
        t.without_rightmost().is_bst(),
        t.without_rightmost().contents() == t.contents().remove(t.rightmost()),
        t.without_rightmost().size() + 1 == t.size(),
    decreases t,
{
    lemma_total_order::<T>();
    if let Tree::Node { left, val, right } = t {
        if *right is Leaf {
            assert(right.contents() =~= Set::<T>::empty());
            assert(right.size() == 0);
            assert(!left.contents().contains(val));
            assert(t.without_rightmost().contents() =~= t.contents().remove(t.rightmost()));
        } else {
            lemma_rightmost(*right);
            let m = right.rightmost();
            assert(lt(val, m));
            assert(!left.contents().contains(m));
            assert(t.without_rightmost().contents() =~= t.contents().remove(m));
        }
    }
}

/// Removing from a search tree keeps it one, takes `v` out of its values, and takes
/// away a node exactly when `v` was there.
pub proof fn lemma_removed<T: Ord>(t: Tree<T>, v: T)
    requires
        total_order::<T>(),
        t.is_bst(),
    ensures
        t.removed(v).is_bst(),
        t.removed(v).contents() == t.contents().remove(v),
        t.removed(v).size() + (if t.contents().contains(v) { 1int } else { 0int }) == t.size(),
        !t.contents().contains(v) ==> t.removed(v) == t,
    decreases t,
{
    lemma_total_order::<T>();
    match t {
        Tree::Leaf => {
            assert(t.removed(v).contents() =~= t.contents().remove(v));
        },
        Tree::Node { left, val, right } => {
            lemma_removed(*left, v);
            lemma_removed(*right, v);
            if v.cmp_spec(&val) == Ordering::Less {
                if right.contents().contains(v) {
                    assert(lt(val, v));
                }
                assert(t.removed(v).contents() =~= t.contents().remove(v));
            } else if v.cmp_spec(&val) == Ordering::Greater {
                if left.contents().contains(v) {
                    assert(lt(v, val));
                }
                assert(t.removed(v).contents() =~= t.contents().remove(v));
            } else {
                assert(!left.contents().contains(v));
                assert(!right.contents().contains(v));
                if *left is Node && *right is Node {
                    lemma_rightmost(*left);
                    let m = left.rightmost();
                    assert(lt(m, v));
                    assert forall|x: T| #[trigger] right.contents().contains(x) implies lt(m, x) by {}
                }
                assert(t.removed(v).contents() =~= t.contents().remove(v));
            }
        },
    }
}

/// The in-order values of a search tree are strictly increasing, and each is one of
/// its values.
pub proof fn lemma_in_order<T: Ord>(t: Tree<T>)
    requires
        total_order::<T>(),
        t.is_bst(),
    ensures
        strictly_increasing(t.in_order()),
        forall|i: int| 0 <= i < t.in_order().len() ==> t.contents().contains(#[trigger] t.in_order()[i]),
    decreases t,
{
    lemma_total_order::<T>();
    if let Tree::Node { left, val, right } = t {
        lemma_in_order(*left);
        lemma_in_order(*right);
        let s = t.in_order();
        let l = left.in_order();
        let r = right.in_order();
        assert(s =~= l + seq![val] + r);
        assert forall|i: int| 0 <= i < s.len() implies t.contents().contains(#[trigger] s[i]) by {
            if i < l.len() {
                assert(s[i] == l[i]);
            } else if i > l.len() {
                assert(s[i] == r[i - l.len() - 1]);
            }
        }
        assert forall|i: int, j: int| 0 <= i < j < s.len() implies lt(#[trigger] s[i], #[trigger] s[j]) by {
            if i < l.len() {
                assert(s[i] == l[i]);
                assert(left.contents().contains(l[i]));
                if j < l.len() {
                    assert(s[j] == l[j]);
                } else if j > l.len() {
                    assert(s[j] == r[j - l.len() - 1]);
                    assert(right.contents().contains(r[j - l.len() - 1]));
                    assert(lt(s[i], val));
                }
            } else if i == l.len() {
                assert(s[j] == r[j - l.len() - 1]);
                assert(right.contents().contains(r[j - l.len() - 1]));
            } else {
                assert(s[i] == r[i - l.len() - 1]);
                assert(s[j] == r[j - l.len() - 1]);
            }
        }
    }
}

/// Ordering: inserting any sequence of values, one after another, into a search tree
/// (an empty one among them) yields a search tree whose in-order values are strictly
/// increasing.
pub proof fn law_inserts_keep_order<T: Ord>(t: Tree<T>, vs: Seq<T>)
    requires
        total_order::<T>(),
        t.is_bst(),
    ensures
        t.inserted_all(vs).is_bst(),
        strictly_increasing(t.inserted_all(vs).in_order()),
    decreases vs.len(),
{
    if vs.len() > 0 {
        law_inserts_keep_order(t, vs.drop_last());
        lemma_inserted(t.inserted_all(vs.drop_last()), vs.last());
    }
    lemma_in_order(t.inserted_all(vs));
}

/// Set semantics: after `v` is inserted it is in the tree, and inserting it again
/// leaves the tree, and so its values, as they are (the insertion reports the
/// duplicate).
pub proof fn law_insert_twice<T: Ord>(t: Tree<T>, v: T)
    requires
        total_order::<T>(),
        t.is_bst(),
    ensures
        t.inserted(v).contents().contains(v),
        t.inserted(v).inserted(v) == t.inserted(v),
{
    lemma_inserted(t, v);
    lemma_inserted(t.inserted(v), v);
}

/// After `v` is removed it is no longer in the tree: removing it again changes nothing
/// (the removal reports it not found), and inserting it again puts it back in one new
/// node.
pub proof fn law_remove_then_absent<T: Ord>(t: Tree<T>, v: T)
    requires
        total_order::<T>(),
        t.is_bst(),
    ensures
        !t.removed(v).contents().contains(v),
        t.removed(v).removed(v) == t.removed(v),
        t.removed(v).inserted(v).contents() == t.removed(v).contents().insert(v),
        t.removed(v).inserted(v).size() == t.removed(v).size() + 1,
{
    lemma_removed(t, v);
    lemma_removed(t.removed(v), v);
    lemma_inserted(t.removed(v), v);
}

/// The number of nodes that hold a value grows by one on an insertion that succeeds,
/// shrinks by one on a removal that succeeds, and stays as it is when either fails.
pub proof fn law_size_conservation<T: Ord>(t: Tree<T>, v: T)
    requires
        total_order::<T>(),
        t.is_bst(),
    ensures
        !t.contents().contains(v) ==> t.inserted(v).size() == t.size() + 1,
        t.contents().contains(v) ==> t.inserted(v).size() == t.size(),
        t.contents().contains(v) ==> t.removed(v).size() + 1 == t.size(),
        !t.contents().contains(v) ==> t.removed(v).size() == t.size(),
{
    lemma_inserted(t, v);
    lemma_removed(t, v);
}

} // verus!
