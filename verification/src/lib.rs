//! A self-balancing binary search tree (AVL tree) of distinct keys, with
//! lookup, insertion and deletion.
//!
//! [`BST`] is the tree; [`BSTNode`] is a subtree, on which the operations
//! recurse. The contracts speak of the keys of a tree in ascending order
//! ([`model`]), compared by the total order that the key type brings
//! ([`order`]).

pub mod balance;
pub mod history;
pub mod insertion;
pub mod model;
pub mod node;
pub mod order;
pub mod rebalancing;
pub mod removal;
pub mod traversal;
pub mod tree;

pub use crate::node::{BSTNode, ChildNode};
pub use crate::tree::BST;
