//! Two owned, recursive containers: an unbalanced binary search tree with
//! set semantics, and a singly linked LIFO stack.

pub mod binarytree;
pub mod order;
pub mod stack;
pub mod tree;
