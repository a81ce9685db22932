//! The tree handle: a root and the number of keys.

use crate::model::{
    deleted, inserted, lemma_deleted_member, lemma_inserted_member, member, strictly_increasing,
};
use crate::node::{BSTNode, ChildNode};
use crate::order::{eqv, lemma_trichotomy, total_order};
use vstd::arithmetic::power2::pow2;
use vstd::prelude::*;

verus! {

/// A self-balancing search tree (AVL tree) of distinct keys.
///
/// Its abstract value, `tree@`, is the sequence of its keys in ascending
/// order.
#[derive(Debug)]
pub struct BST<T: Ord> {
    root: ChildNode<T>,
    size: u32,
}

impl<T: Ord> View for BST<T> {
    type V = Seq<T>;

    open spec fn view(&self) -> Seq<T> {
        self.root_node().in_order()
    }
}

impl<T: Ord> BST<T> {
    /// The root of the tree, [`BSTNode::Nil`] if it is empty.
    pub closed spec fn root_node(self) -> BSTNode<T> {
        *self.root
    }

    /// The number of keys that the tree has counted.
    pub closed spec fn counted(self) -> nat {
        self.size as nat
    }

    /// A valid tree: the root is a valid subtree, and the count is the number
    /// of its keys.
    pub open spec fn wf(self) -> bool {
        &&& self.root_node().wf()
        &&& self.counted() == self@.len()
    }

    /// An empty tree.
    pub fn new() -> (tree: Self)
        ensures
            tree.wf(),
            tree@ == Seq::<T>::empty(),
            tree.root_node() is Nil,
    {
        BST { root: Box::new(BSTNode::Nil), size: 0 }
    }

    /// Whether the tree has a key equivalent to `value`.
    pub fn contains(&self, value: &T) -> (found: bool)
        requires
            total_order::<T>(),
            self.wf(),
        ensures
            found == member(self@, *value),
    {
        self.root.contains(value)
    }

    /// Inserts `value` unless the tree has an equivalent key, and says whether
    /// it did.
    pub fn insert(&mut self, value: T) -> (added: bool)
        requires
            total_order::<T>(),
            old(self).wf(),
            old(self)@.len() < u32::MAX,
        ensures
            final(self).wf(),
            added == !member(old(self)@, value),
            final(self).root_node() == old(self).root_node().with_inserted(value),
            final(self)@ == inserted(old(self)@, value),
            added ==> final(self)@.len() == old(self)@.len() + 1,
            !added ==> *final(self) == *old(self),
            forall|x: T| #[trigger] member(final(self)@, x) <==> member(old(self)@, x) || eqv(x, value),
    {
        proof {
            self.root.lemma_height_small();
            assert forall|x: T| #[trigger]
                member(inserted(self@, value), x) <==> member(self@, x) || eqv(x, value) by {
                lemma_inserted_member(self@, value, x);
            }
        }
        let added = self.root.insert_balanced(value);
        if added {
            self.size += 1;
        }
        added
    }

    /// Deletes the key equivalent to `value`, if the tree has one, and says
    /// whether it did.
    pub fn delete(&mut self, value: &T) -> (removed: bool)
        requires
            total_order::<T>(),
            old(self).wf(),
        ensures
            final(self).wf(),
            removed == member(old(self)@, *value),
            final(self).root_node() == old(self).root_node().with_deleted(*value),
            final(self)@ == deleted(old(self)@, *value),
            removed ==> final(self)@.len() == old(self)@.len() - 1,
            !removed ==> *final(self) == *old(self),
            forall|x: T| #[trigger]
                member(final(self)@, x) <==> member(old(self)@, x) && !eqv(x, *value),
    {
        proof {
            assert forall|x: T| #[trigger]
                member(deleted(self@, *value), x) <==> member(self@, x) && !eqv(x, *value) by {
                lemma_deleted_member(self@, *value, x);
            }
        }
        let removed = self.root.delete_balanced(value);
        if removed {
            self.size -= 1;
        }
        removed
    }

    /// The number of keys.
    pub fn size(&self) -> (n: u32)
        requires
            self.wf(),
        ensures
            n == self@.len(),
    {
        self.size
    }

    /// The height of the tree: -1 if it is empty, 0 if it has one key.
    pub fn height(&self) -> (h: i32)
        requires
            self.wf(),
        ensures
            h == self.root_node().tree_height(),
    {
        proof {
            self.root.lemma_height_bounds();
        }
        self.root.get_height()
    }

    /// The root of the tree, for reading.
    pub fn root(&self) -> (node: &BSTNode<T>)
        ensures
            *node == self.root_node(),
    {
        &*self.root
    }

    /// What holds of every valid tree. Its keys, read in order, are strictly
    /// increasing, so no two of them are equivalent. At every node the search
    /// order holds, the heights of the two subtrees differ by at most one, and
    /// the cached height is the height of the subtree. The count is the
    /// number of keys, and the height is logarithmic in it.
    pub proof fn lemma_invariants(self)
        requires
            total_order::<T>(),
            self.wf(),
        ensures
            strictly_increasing(self@),
            forall|i: int, j: int|
                0 <= i < j < self@.len() ==> !eqv(#[trigger] self@[i], #[trigger] self@[j]),
            self.root_node().ordered(),
            self.root_node().balanced(),
            self.root_node().heights_cached(),
            self.counted() == self@.len(),
            pow2(((self.root_node().tree_height() + 1) / 2) as nat) <= self@.len() + 1,
    {
        self.root_node().lemma_in_order_increasing();
        self.root_node().lemma_height_logarithmic();
        assert forall|i: int, j: int| 0 <= i < j < self@.len() implies !eqv(
            #[trigger] self@[i],
            #[trigger] self@[j],
        ) by {
            lemma_trichotomy(self@[i], self@[j]);
        }
    }
}

} // verus!
