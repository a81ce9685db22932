//! Insertion as a function on subtrees, and why it gives a valid subtree.

use crate::model::{
    inserted, lemma_inserted_keeps_bound, lemma_inserted_left, lemma_inserted_right, member,
};
use crate::node::{height_above, leaf, BSTNode};
use crate::order::{eqv, lemma_trichotomy, lt, total_order};
use vstd::prelude::*;

verus! {

impl<T: Ord> BSTNode<T> {
    /// The subtree after inserting `v`: the search for `v` either meets an
    /// equivalent key, and nothing changes, or ends at an empty place, where
    /// a leaf is put; every node on the way back up is then settled.
    pub open spec fn with_inserted(self, v: T) -> Self
        decreases self,
    {
        match self {
            BSTNode::Nil => leaf(v),
            BSTNode::Node { left, right, value, .. } => {
                if eqv(v, value) {
                    self
                } else if lt(value, v) {
                    self.with_right(right.with_inserted(v)).settled()
                } else {
                    self.with_left(left.with_inserted(v)).settled()
                }
            },
        }
    }

    /// `mid` is what the valid subtree `self` is right after `v` was put in
    /// below its root, before the root is settled: valid below its root,
    /// holding the keys with `v` among them, and higher by one only if it is
    /// not balanced.
    #[verifier::opaque]
    pub open spec fn insertion_step(self, mid: Self, v: T) -> bool {
        &&& mid.wf_below_root()
        &&& mid.in_order() == inserted(self.in_order(), v)
        &&& mid.in_order().len() == self.in_order().len() + 1
        &&& self.tree_height() <= mid.tree_height() <= self.tree_height() + 1
        &&& mid.tree_height() == self.tree_height() + 1 || mid.balanced()
        &&& mid.settled() == self.with_inserted(v)
    }

    /// Inserting a new key into the left child of a valid node is an
    /// insertion step.
    pub proof fn lemma_insertion_on_left(self, grown: Self, v: T)
        requires
            total_order::<T>(),
            self.wf(),
            self is Node,
            self.tree_height() < i32::MAX,
            lt(v, self->value),
            grown == self->left.with_inserted(v),
            grown.wf(),
            grown.in_order() == inserted(self->left.in_order(), v),
            grown.in_order().len() == self->left.in_order().len() + 1,
            self->left.tree_height() <= grown.tree_height() <= self->left.tree_height() + 1,
        ensures
            self.insertion_step(self.with_left(grown), v),
    {
        reveal(BSTNode::insertion_step);
        let l = self->left.in_order();
        let r = self->right.in_order();
        lemma_trichotomy(v, self->value);
        lemma_inserted_left(l, self->value, r, v);
        lemma_inserted_keeps_bound(l, v, self->value);
        self->right.lemma_height_bounds();
        grown.lemma_height_bounds();
    }

    /// Inserting a new key into the right child of a valid node is an
    /// insertion step.
    pub proof fn lemma_insertion_on_right(self, grown: Self, v: T)
        requires
            total_order::<T>(),
            self.wf(),
            self is Node,
            self.tree_height() < i32::MAX,
            lt(self->value, v),
            grown == self->right.with_inserted(v),
            grown.wf(),
            grown.in_order() == inserted(self->right.in_order(), v),
            grown.in_order().len() == self->right.in_order().len() + 1,
            self->right.tree_height() <= grown.tree_height() <= self->right.tree_height() + 1,
        ensures
            self.insertion_step(self.with_right(grown), v),
    {
        reveal(BSTNode::insertion_step);
        let l = self->left.in_order();
        let r = self->right.in_order();
        lemma_trichotomy(v, self->value);
        lemma_inserted_right(l, self->value, r, v);
        lemma_inserted_keeps_bound(r, v, self->value);
        self->left.lemma_height_bounds();
        grown.lemma_height_bounds();
    }

    /// Inserting into the empty subtree gives a leaf.
    pub proof fn lemma_insertion_into_nil(v: T)
        ensures
            leaf(v).wf(),
            leaf(v).rebalanced() == leaf(v),
            leaf(v).in_order() == inserted(Seq::<T>::empty(), v),
            leaf(v).in_order().len() == 1,
            leaf(v).tree_height() == 0,
            !member(Seq::<T>::empty(), v),
    {
        reveal(BSTNode::rebalanced);
        reveal_with_fuel(BSTNode::in_order, 2);
        reveal_with_fuel(BSTNode::tree_height, 2);
        reveal_with_fuel(BSTNode::ordered, 2);
        reveal_with_fuel(BSTNode::balanced, 2);
        reveal_with_fuel(BSTNode::heights_cached, 2);
        assert(inserted(Seq::<T>::empty(), v) =~= seq![v]) by {
            reveal(Seq::filter);
        }
        assert(leaf(v).in_order() =~= seq![v]);
    }

    /// Settling the root after an insertion step gives the subtree with the
    /// key: valid, and higher than before by at most one.
    pub proof fn lemma_insertion_settles(self, mid: Self, v: T)
        requires
            total_order::<T>(),
            self.insertion_step(mid, v),
        ensures
            mid is Node ==> height_above(mid->left.cached_height(), mid->right.cached_height())
                <= i32::MAX,
            mid.with_height_updated().heights_cached(),
            mid.settled() == self.with_inserted(v),
            mid.settled().wf(),
            mid.settled().in_order() == inserted(self.in_order(), v),
            mid.settled().in_order().len() == self.in_order().len() + 1,
            self.tree_height() <= mid.settled().tree_height() <= self.tree_height() + 1,
    {
        reveal(BSTNode::insertion_step);
        mid.lemma_settled();
    }

    /// Where an equivalent key is there, insertion changes nothing.
    pub proof fn lemma_nothing_to_insert(self, v: T)
        requires
            total_order::<T>(),
            self.wf(),
            member(self.in_order(), v),
        ensures
            self.with_inserted(v) == self,
            inserted(self.in_order(), v) == self.in_order(),
        decreases self,
    {
        if self is Node {
            self.lemma_member_descends(v);
            lemma_trichotomy(v, self->value);
            self.lemma_wf_below_root();
            self.lemma_settled();
            if lt(v, self->value) {
                self->left.lemma_nothing_to_insert(v);
            } else if lt(self->value, v) {
                self->right.lemma_nothing_to_insert(v);
            }
        }
    }
}

} // verus!
