//! Deletion as a function on subtrees, and why it gives a valid subtree.

use crate::model::{
    all_above, all_below, deleted, lemma_bound_weakens, lemma_deleted_absent, lemma_deleted_here,
    lemma_deleted_here_successor, lemma_deleted_keeps_bound, lemma_deleted_left,
    lemma_deleted_right, lemma_first_is_least, member,
};
use crate::node::{height_above, BSTNode};
use crate::order::{eqv, lemma_trichotomy, lt, total_order};
use vstd::prelude::*;

verus! {

impl<T: Ord> BSTNode<T> {
    /// The node that holds the smallest key of the subtree: the last one on
    /// the way down to the left.
    pub open spec fn leftmost(self) -> Self
        decreases self,
    {
        match self {
            BSTNode::Nil => BSTNode::Nil,
            BSTNode::Node { left, .. } => if *left is Nil {
                self
            } else {
                left.leftmost()
            },
        }
    }

    /// The subtree after its leftmost node was taken out: the right child of
    /// that node takes its place, and every node on the way back up is
    /// settled.
    pub open spec fn without_leftmost(self) -> Self
        decreases self,
    {
        match self {
            BSTNode::Nil => BSTNode::Nil,
            BSTNode::Node { left, right, .. } => if *left is Nil {
                *right
            } else {
                self.with_left(left.without_leftmost()).settled()
            },
        }
    }

    /// A node as it is once it was taken out of a tree: without children, and
    /// with the cached height that it had.
    pub open spec fn detached(self) -> Self {
        match self {
            BSTNode::Nil => BSTNode::Nil,
            BSTNode::Node { height, value, .. } => BSTNode::Node {
                left: Box::new(BSTNode::Nil),
                right: Box::new(BSTNode::Nil),
                height,
                value,
            },
        }
    }

    /// The subtree after deleting the key equivalent to `v`. The search for
    /// `v` ends at nothing, and nothing changes, or at a node. A node with at
    /// most one child is replaced by that child. A node with two children
    /// stays, and gets the smallest key of its right child, which is taken out
    /// there. Every node on the way back up is settled.
    pub open spec fn with_deleted(self, v: T) -> Self
        decreases self,
    {
        match self {
            BSTNode::Nil => BSTNode::Nil,
            BSTNode::Node { left, right, height, value } => {
                if lt(v, value) {
                    self.with_left(left.with_deleted(v)).settled()
                } else if lt(value, v) {
                    self.with_right(right.with_deleted(v)).settled()
                } else if *left is Nil {
                    *right
                } else if *right is Nil {
                    *left
                } else {
                    (BSTNode::Node {
                        left,
                        right: Box::new(right.without_leftmost()),
                        height,
                        value: right.leftmost()->value,
                    }).settled()
                }
            },
        }
    }

    /// `mid` is what the valid subtree `self` is right after the key
    /// equivalent to `v` was taken out, before the root is settled: valid
    /// below its root, holding the remaining keys, and lower by one only if it
    /// is balanced.
    #[verifier::opaque]
    pub open spec fn removal_step(self, mid: Self, v: T) -> bool {
        &&& mid.wf_below_root()
        &&& mid.in_order() == deleted(self.in_order(), v)
        &&& mid.in_order().len() == self.in_order().len() - 1
        &&& self.tree_height() - 1 <= mid.tree_height() <= self.tree_height()
        &&& mid.tree_height() == self.tree_height() || mid.balanced()
        &&& mid.settled() == self.with_deleted(v)
    }

    /// The leftmost node holds the first key.
    pub proof fn lemma_leftmost_is_first(self)
        requires
            self is Node,
        ensures
            self.leftmost() is Node,
            self.leftmost()->value == self.in_order()[0],
        decreases self,
    {
        self->left.lemma_in_order_len();
        if *self->left is Node {
            self->left.lemma_leftmost_is_first();
        }
    }

    /// Replacing a valid node that has no left child by its right child leaves
    /// a valid subtree with all keys but the first.
    pub proof fn lemma_leftmost_taken(self)
        requires
            self.wf(),
            self is Node,
            *self->left is Nil,
        ensures
            self->right.wf(),
            self->right.in_order() == self.in_order().drop_first(),
            self->right.tree_height() == self.tree_height() - 1,
    {
        self->right.lemma_height_bounds();
        assert(self.in_order().drop_first() =~= self->right.in_order());
    }

    /// Taking the leftmost node out of the left child of a valid node leaves a
    /// subtree that is valid below its root, with all keys but the first.
    pub proof fn lemma_leftmost_taken_on_left(self, shrunk: Self)
        requires
            total_order::<T>(),
            self.wf(),
            self is Node,
            *self->left is Node,
            shrunk.wf(),
            shrunk.in_order() == self->left.in_order().drop_first(),
            self->left.tree_height() - 1 <= shrunk.tree_height() <= self->left.tree_height(),
        ensures
            self.with_left(shrunk).wf_below_root(),
            self.with_left(shrunk).in_order() == self.in_order().drop_first(),
            self.tree_height() - 1 <= self.with_left(shrunk).tree_height() <= self.tree_height(),
            self.with_left(shrunk).tree_height() == self.tree_height() || self.with_left(
                shrunk,
            ).balanced(),
    {
        let l = self->left.in_order();
        let r = self->right.in_order();
        let x = self->value;
        self->left.lemma_in_order_len();
        assert((l.push(x) + r).drop_first() =~= l.drop_first().push(x) + r);
        assert forall|i: int| 0 <= i < l.drop_first().len() implies lt(
            #[trigger] l.drop_first()[i],
            x,
        ) by {
            assert(l.drop_first()[i] == l[i + 1]);
        }
        self.lemma_height_bounds();
        self->right.lemma_height_bounds();
        shrunk.lemma_height_bounds();
    }

    /// Deleting a key from the left child of a valid node is a removal step.
    pub proof fn lemma_removal_on_left(self, shrunk: Self, v: T)
        requires
            total_order::<T>(),
            self.wf(),
            self is Node,
            lt(v, self->value),
            shrunk == self->left.with_deleted(v),
            shrunk.wf(),
            shrunk.in_order() == deleted(self->left.in_order(), v),
            shrunk.in_order().len() == self->left.in_order().len() - 1,
            self->left.tree_height() - 1 <= shrunk.tree_height() <= self->left.tree_height(),
        ensures
            self.removal_step(self.with_left(shrunk), v),
    {
        reveal(BSTNode::removal_step);
        let l = self->left.in_order();
        let r = self->right.in_order();
        lemma_trichotomy(v, self->value);
        lemma_deleted_left(l, self->value, r, v);
        lemma_deleted_keeps_bound(l, v, self->value);
        self.lemma_height_bounds();
        self->right.lemma_height_bounds();
        shrunk.lemma_height_bounds();
    }

    /// Deleting a key from the right child of a valid node is a removal step.
    pub proof fn lemma_removal_on_right(self, shrunk: Self, v: T)
        requires
            total_order::<T>(),
            self.wf(),
            self is Node,
            lt(self->value, v),
            shrunk == self->right.with_deleted(v),
            shrunk.wf(),
            shrunk.in_order() == deleted(self->right.in_order(), v),
            shrunk.in_order().len() == self->right.in_order().len() - 1,
            self->right.tree_height() - 1 <= shrunk.tree_height() <= self->right.tree_height(),
        ensures
            self.removal_step(self.with_right(shrunk), v),
    {
        reveal(BSTNode::removal_step);
        let l = self->left.in_order();
        let r = self->right.in_order();
        lemma_trichotomy(v, self->value);
        lemma_deleted_right(l, self->value, r, v);
        lemma_deleted_keeps_bound(r, v, self->value);
        self.lemma_height_bounds();
        self->left.lemma_height_bounds();
        shrunk.lemma_height_bounds();
    }

    /// Replacing a valid node that has no left child by its right child is a
    /// removal step for the node's own key.
    pub proof fn lemma_removal_of_root_left_nil(self, v: T)
        requires
            total_order::<T>(),
            self.wf(),
            self is Node,
            eqv(self->value, v),
            *self->left is Nil,
        ensures
            self.removal_step(*self->right, v),
    {
        reveal(BSTNode::removal_step);
        let l = self->left.in_order();
        let r = self->right.in_order();
        assert(self->right.wf_below_root()) by {
            assert(self->right.wf());
            self->right.lemma_wf_below_root();
        }
        assert(r == deleted(self.in_order(), v)) by {
            lemma_deleted_here(l, self->value, r, v);
            assert(l + r =~= r);
        }
        self->right.lemma_height_bounds();
        self->right.lemma_settled();
        lemma_trichotomy(v, self->value);
    }

    /// Replacing a valid node that has no right child by its left child is a
    /// removal step for the node's own key.
    pub proof fn lemma_removal_of_root_right_nil(self, v: T)
        requires
            total_order::<T>(),
            self.wf(),
            self is Node,
            eqv(self->value, v),
            *self->left is Node,
            *self->right is Nil,
        ensures
            self.removal_step(*self->left, v),
    {
        reveal(BSTNode::removal_step);
        let l = self->left.in_order();
        let r = self->right.in_order();
        assert(self->left.wf_below_root()) by {
            assert(self->left.wf());
            self->left.lemma_wf_below_root();
        }
        assert(l == deleted(self.in_order(), v)) by {
            lemma_deleted_here(l, self->value, r, v);
            assert(l + r =~= l);
        }
        self->left.lemma_height_bounds();
        self->left.lemma_settled();
        lemma_trichotomy(v, self->value);
    }

    /// Putting the smallest key of the right child in the place of a valid
    /// node's own key, and taking it out of the right child, is a removal step
    /// for the node's own key.
    pub proof fn lemma_removal_by_successor(self, rest: Self, v: T)
        requires
            total_order::<T>(),
            self.wf(),
            self is Node,
            eqv(self->value, v),
            *self->left is Node,
            *self->right is Node,
            rest == self->right.without_leftmost(),
            rest.wf(),
            rest.in_order() == self->right.in_order().drop_first(),
            self->right.tree_height() - 1 <= rest.tree_height() <= self->right.tree_height(),
        ensures
            self.removal_step(
                BSTNode::Node {
                    left: self->left,
                    right: Box::new(rest),
                    height: self->height,
                    value: self->right.in_order()[0],
                },
                v,
            ),
    {
        reveal(BSTNode::removal_step);
        let l = self->left.in_order();
        let r = self->right.in_order();
        let x = self->value;
        self->right.lemma_in_order_len();
        self->right.lemma_leftmost_is_first();
        lemma_trichotomy(v, x);
        assert(all_below(l, r[0])) by {
            lemma_bound_weakens(l, x, r[0]);
        }
        assert(all_above(r.drop_first(), r[0])) by {
            self->right.lemma_in_order_increasing();
            lemma_first_is_least(r);
        }
        lemma_deleted_here_successor(l, x, r, v);
        self.lemma_height_bounds();
        self->left.lemma_height_bounds();
        rest.lemma_height_bounds();
        assert(self->left.wf());
    }

    /// Settling the root after a removal step gives the subtree without the
    /// key: valid, and lower than before by at most one.
    pub proof fn lemma_removal_settles(self, mid: Self, v: T)
        requires
            total_order::<T>(),
            self.removal_step(mid, v),
        ensures
            mid is Node ==> height_above(mid->left.cached_height(), mid->right.cached_height())
                <= i32::MAX,
            mid.with_height_updated().heights_cached(),
            mid.settled() == self.with_deleted(v),
            mid.settled().wf(),
            mid.settled().in_order() == deleted(self.in_order(), v),
            mid.settled().in_order().len() == self.in_order().len() - 1,
            self.tree_height() - 1 <= mid.settled().tree_height() <= self.tree_height(),
    {
        reveal(BSTNode::removal_step);
        mid.lemma_settled();
    }

    /// Where the key is not there, deletion changes nothing.
    pub proof fn lemma_nothing_to_delete(self, v: T)
        requires
            total_order::<T>(),
            self.wf(),
            !member(self.in_order(), v),
        ensures
            self.with_deleted(v) == self,
            deleted(self.in_order(), v) == self.in_order(),
        decreases self,
    {
        lemma_deleted_absent(self.in_order(), v);
        if self is Node {
            self.lemma_member_descends(v);
            lemma_trichotomy(v, self->value);
            self.lemma_wf_below_root();
            self.lemma_settled();
            if lt(v, self->value) {
                self->left.lemma_nothing_to_delete(v);
            } else {
                self->right.lemma_nothing_to_delete(v);
            }
        }
    }
}

} // verus!
