//! Rotations and rebalancing, as functions on subtrees, and what they keep.
//!
//! The executable rotations in [`crate::node`] are specified by the functions
//! here. The lemmas show that a rotation keeps the keys in their order, and
//! that rebalancing a subtree whose children are valid makes it valid.

use crate::model::{all_above, all_below};
use crate::node::{height_above, BSTNode};
use crate::order::{lemma_lt_transitive, lt, total_order};
use vstd::prelude::*;

verus! {

impl<T: Ord> BSTNode<T> {
    /// The subtree with another left child.
    pub open spec fn with_left(self, child: Self) -> Self
        recommends
            self is Node,
    {
        BSTNode::Node {
            left: Box::new(child),
            right: self->right,
            height: self->height,
            value: self->value,
        }
    }

    /// The subtree with another right child.
    pub open spec fn with_right(self, child: Self) -> Self
        recommends
            self is Node,
    {
        BSTNode::Node {
            left: self->left,
            right: Box::new(child),
            height: self->height,
            value: self->value,
        }
    }

    /// The subtree with the cached height of its root computed anew from the
    /// cached heights of its children.
    pub open spec fn with_height_updated(self) -> Self {
        match self {
            BSTNode::Nil => BSTNode::Nil,
            BSTNode::Node { left, right, height, value } => BSTNode::Node {
                left,
                right,
                height: height_above(left.cached_height(), right.cached_height()) as i32,
                value,
            },
        }
    }

    /// The subtree after a left rotation at its root: the right child becomes
    /// the root, the old root becomes its left child and takes over the right
    /// child's former left subtree. Cached heights are computed anew for the
    /// old root, then for the new one.
    pub open spec fn rotated_left(self) -> Self
        recommends
            self is Node,
            *self->right is Node,
    {
        let pivot = self->right;
        let lowered = (BSTNode::Node {
            left: self->left,
            right: pivot->left,
            height: self->height,
            value: self->value,
        }).with_height_updated();
        (BSTNode::Node {
            left: Box::new(lowered),
            right: pivot->right,
            height: pivot->height,
            value: pivot->value,
        }).with_height_updated()
    }

    /// The subtree after a right rotation at its root: the mirror image of
    /// [`Self::rotated_left`].
    pub open spec fn rotated_right(self) -> Self
        recommends
            self is Node,
            *self->left is Node,
    {
        let pivot = self->left;
        let lowered = (BSTNode::Node {
            left: pivot->right,
            right: self->right,
            height: self->height,
            value: self->value,
        }).with_height_updated();
        (BSTNode::Node {
            left: pivot->left,
            right: Box::new(lowered),
            height: pivot->height,
            value: pivot->value,
        }).with_height_updated()
    }

    /// A left rotation can be made: there is a right child to become the
    /// root, and the heights that the rotation computes fit their fields.
    pub open spec fn can_rotate_left(self) -> bool {
        &&& self is Node
        &&& *self->right is Node
        &&& height_above(self->left.cached_height(), self->right->left.cached_height())
            < i32::MAX
        &&& self->right->right.cached_height() < i32::MAX
    }

    /// A right rotation can be made: there is a left child to become the
    /// root, and the heights that the rotation computes fit their fields.
    pub open spec fn can_rotate_right(self) -> bool {
        &&& self is Node
        &&& *self->left is Node
        &&& height_above(self->left->right.cached_height(), self->right.cached_height())
            < i32::MAX
        &&& self->left->left.cached_height() < i32::MAX
    }

    /// The subtree after rebalancing at its root. A root whose children differ
    /// in height by at most one stays as it is. A root that is too high on the
    /// left is rotated to the right, after its left child has been rotated to
    /// the left if that child is higher on its right; and the mirror image
    /// for a root that is too high on the right.
    #[verifier::opaque]
    pub open spec fn rebalanced(self) -> Self {
        if -1 <= self.balance_factor() <= 1 {
            self
        } else if self.balance_factor() > 0 {
            if self->left.balance_factor() >= 0 {
                self.rotated_right()
            } else {
                self.with_left(self->left.rotated_left()).rotated_right()
            }
        } else {
            if self->right.balance_factor() <= 0 {
                self.rotated_left()
            } else {
                self.with_right(self->right.rotated_right()).rotated_left()
            }
        }
    }

    /// The subtree after its root's height was recomputed and its balance
    /// restored: what every node on the way back up from a change goes through.
    pub open spec fn settled(self) -> Self {
        self.with_height_updated().rebalanced()
    }

    /// A subtree as it is right after one key was inserted or deleted below
    /// its root: both children are valid, the search order holds at the root,
    /// and the heights of the children differ by at most two. The cached
    /// height of the root may be stale.
    pub open spec fn wf_below_root(self) -> bool {
        match self {
            BSTNode::Nil => true,
            BSTNode::Node { left, right, value, .. } => {
                &&& left.wf()
                &&& right.wf()
                &&& all_below(left.in_order(), value)
                &&& all_above(right.in_order(), value)
                &&& -2 <= left.tree_height() - right.tree_height() <= 2
                &&& self.tree_height() <= i32::MAX
            },
        }
    }

    /// Heights start at -1, and a cached height that is right fits its field.
    pub proof fn lemma_height_bounds(self)
        ensures
            self.tree_height() >= -1,
            self is Node ==> self.tree_height() >= 0,
            self.heights_cached() ==> self.cached_height() == self.tree_height()
                && self.tree_height() <= i32::MAX,
        decreases self,
    {
        match self {
            BSTNode::Nil => {},
            BSTNode::Node { left, right, .. } => {
                left.lemma_height_bounds();
                right.lemma_height_bounds();
            },
        }
    }

    /// A valid subtree is valid below its root.
    pub proof fn lemma_wf_below_root(self)
        requires
            self.wf(),
        ensures
            self.wf_below_root(),
    {
        self.lemma_height_bounds();
        if self is Node {
            assert(self->left.wf());
            assert(self->right.wf());
        }
    }

    /// A left rotation keeps the keys and their order, and keeps the search
    /// order.
    pub proof fn lemma_rotated_left(self)
        requires
            total_order::<T>(),
            self is Node,
            *self->right is Node,
        ensures
            self.rotated_left().in_order() == self.in_order(),
            self.ordered() ==> self.rotated_left().ordered(),
    {
        reveal_with_fuel(BSTNode::in_order, 3);
        reveal_with_fuel(BSTNode::ordered, 3);
        let a = self->left.in_order();
        let x = self->value;
        let b = self->right->left.in_order();
        let y = self->right->value;
        let c = self->right->right.in_order();
        let rotated = self.rotated_left();
        assert(self.in_order() == a.push(x) + (b.push(y) + c));
        assert(rotated.in_order() == (a.push(x) + b).push(y) + c);
        assert(a.push(x) + (b.push(y) + c) =~= (a.push(x) + b).push(y) + c);
        if self.ordered() {
            let upper = b.push(y) + c;
            assert(lt(x, y)) by {
                assert(upper[b.len() as int] == y);
            }
            assert forall|i: int| 0 <= i < b.len() implies lt(x, #[trigger] b[i]) by {
                assert(upper[i] == b[i]);
            }
            let lower = a.push(x) + b;
            assert forall|i: int| 0 <= i < lower.len() implies lt(#[trigger] lower[i], y) by {
                if i < a.len() {
                    assert(lower[i] == a[i]);
                    lemma_lt_transitive(a[i], x, y);
                } else if i > a.len() {
                    assert(lower[i] == b[i - a.len() - 1]);
                }
            }
        }
    }

    /// A right rotation keeps the keys and their order, and keeps the search
    /// order.
    pub proof fn lemma_rotated_right(self)
        requires
            total_order::<T>(),
            self is Node,
            *self->left is Node,
        ensures
            self.rotated_right().in_order() == self.in_order(),
            self.ordered() ==> self.rotated_right().ordered(),
    {
        reveal_with_fuel(BSTNode::in_order, 3);
        reveal_with_fuel(BSTNode::ordered, 3);
        let a = self->left->left.in_order();
        let x = self->left->value;
        let b = self->left->right.in_order();
        let y = self->value;
        let c = self->right.in_order();
        let rotated = self.rotated_right();
        assert(self.in_order() == (a.push(x) + b).push(y) + c);
        assert(rotated.in_order() == a.push(x) + (b.push(y) + c));
        assert(a.push(x) + (b.push(y) + c) =~= (a.push(x) + b).push(y) + c);
        if self.ordered() {
            let lower = a.push(x) + b;
            assert(lt(x, y)) by {
                assert(lower[a.len() as int] == x);
            }
            assert forall|i: int| 0 <= i < b.len() implies lt(#[trigger] b[i], y) by {
                assert(lower[a.len() + 1 + i] == b[i]);
            }
            let upper = b.push(y) + c;
            assert forall|i: int| 0 <= i < upper.len() implies lt(x, #[trigger] upper[i]) by {
                if i < b.len() {
                    assert(upper[i] == b[i]);
                } else if i > b.len() {
                    assert(upper[i] == c[i - b.len() - 1]);
                    lemma_lt_transitive(x, y, c[i - b.len() - 1]);
                }
            }
        }
    }

    /// The heights and the balance of a left rotation's result, from those of
    /// the three subtrees that it rearranges.
    pub proof fn lemma_rotated_left_heights(self)
        requires
            self is Node,
            *self->right is Node,
            self->left.heights_cached(),
            self->right->left.heights_cached(),
            self->right->right.heights_cached(),
            height_above(
                height_above(self->left.tree_height(), self->right->left.tree_height()),
                self->right->right.tree_height(),
            ) <= i32::MAX,
        ensures
            self.rotated_left().heights_cached(),
            self.rotated_left().tree_height() == height_above(
                height_above(self->left.tree_height(), self->right->left.tree_height()),
                self->right->right.tree_height(),
            ),
            self.rotated_left().balanced() <==> {
                &&& self->left.balanced()
                &&& self->right->left.balanced()
                &&& self->right->right.balanced()
                &&& -1 <= self->left.tree_height() - self->right->left.tree_height() <= 1
                &&& -1 <= height_above(
                    self->left.tree_height(),
                    self->right->left.tree_height(),
                ) - self->right->right.tree_height() <= 1
            },
    {
        let rotated = self.rotated_left();
        let lowered = *rotated->left;
        self->left.lemma_height_bounds();
        self->right->left.lemma_height_bounds();
        self->right->right.lemma_height_bounds();
        assert(lowered.tree_height() == height_above(
            self->left.tree_height(),
            self->right->left.tree_height(),
        ));
        assert(lowered.heights_cached());
        assert(lowered.balanced() <==> self->left.balanced() && self->right->left.balanced() && -1
            <= self->left.tree_height() - self->right->left.tree_height() <= 1);
        assert(rotated.tree_height() == height_above(
            lowered.tree_height(),
            self->right->right.tree_height(),
        ));
        assert(rotated.heights_cached());
        assert(rotated.balanced() <==> lowered.balanced() && self->right->right.balanced() && -1
            <= lowered.tree_height() - self->right->right.tree_height() <= 1);
    }

    /// The heights and the balance of a right rotation's result, from those of
    /// the three subtrees that it rearranges.
    pub proof fn lemma_rotated_right_heights(self)
        requires
            self is Node,
            *self->left is Node,
            self->left->left.heights_cached(),
            self->left->right.heights_cached(),
            self->right.heights_cached(),
            height_above(
                self->left->left.tree_height(),
                height_above(self->left->right.tree_height(), self->right.tree_height()),
            ) <= i32::MAX,
        ensures
            self.rotated_right().heights_cached(),
            self.rotated_right().tree_height() == height_above(
                self->left->left.tree_height(),
                height_above(self->left->right.tree_height(), self->right.tree_height()),
            ),
            self.rotated_right().balanced() <==> {
                &&& self->left->left.balanced()
                &&& self->left->right.balanced()
                &&& self->right.balanced()
                &&& -1 <= self->left->right.tree_height() - self->right.tree_height() <= 1
                &&& -1 <= self->left->left.tree_height() - height_above(
                    self->left->right.tree_height(),
                    self->right.tree_height(),
                ) <= 1
            },
    {
        let rotated = self.rotated_right();
        let lowered = *rotated->right;
        self->left->left.lemma_height_bounds();
        self->left->right.lemma_height_bounds();
        self->right.lemma_height_bounds();
        assert(lowered.tree_height() == height_above(
            self->left->right.tree_height(),
            self->right.tree_height(),
        ));
        assert(lowered.heights_cached());
        assert(lowered.balanced() <==> self->left->right.balanced() && self->right.balanced() && -1
            <= self->left->right.tree_height() - self->right.tree_height() <= 1);
        assert(rotated.tree_height() == height_above(
            self->left->left.tree_height(),
            lowered.tree_height(),
        ));
        assert(rotated.heights_cached());
        assert(rotated.balanced() <==> self->left->left.balanced() && lowered.balanced() && -1
            <= self->left->left.tree_height() - lowered.tree_height() <= 1);
    }

    /// Rebalancing a subtree that is valid below its root, and whose root has
    /// the right cached height, makes it valid, keeps its keys and their
    /// order, and lowers its height by at most one.
    pub proof fn lemma_rebalanced(self)
        requires
            total_order::<T>(),
            self.wf_below_root(),
            self.cached_height() == self.tree_height(),
        ensures
            self.rebalanced().wf(),
            self.rebalanced().in_order() == self.in_order(),
            self.tree_height() - 1 <= self.rebalanced().tree_height() <= self.tree_height(),
            self.balanced() ==> self.rebalanced() == self,
            self is Node ==> self.rebalanced() is Node,
    {
        reveal(BSTNode::rebalanced);
        self.lemma_height_bounds();
        if self is Node {
            let left = *self->left;
            let right = *self->right;
            assert(self.ordered() && self.heights_cached());
            left.lemma_height_bounds();
            right.lemma_height_bounds();
            if self.balance_factor() > 1 {
                let inner = *left->right;
                left->left.lemma_height_bounds();
                inner.lemma_height_bounds();
                assert(left.tree_height() == height_above(
                    left->left.tree_height(),
                    inner.tree_height(),
                ));
                assert(left.balanced() && left.heights_cached() && left.ordered());
                if left.balance_factor() >= 0 {
                    self.lemma_rotated_right();
                    self.lemma_rotated_right_heights();
                } else {
                    inner->left.lemma_height_bounds();
                    inner->right.lemma_height_bounds();
                    assert(inner.tree_height() == height_above(
                        inner->left.tree_height(),
                        inner->right.tree_height(),
                    ));
                    assert(inner.balanced() && inner.heights_cached());
                    let turned = self.with_left(left.rotated_left());
                    left.lemma_rotated_left();
                    left.lemma_rotated_left_heights();
                    assert(turned.ordered());
                    assert(turned.in_order() == self.in_order());
                    assert(turned->left->left.heights_cached());
                    assert(turned->left->left.balanced());
                    assert(turned->left->left.tree_height() == height_above(
                        left->left.tree_height(),
                        inner->left.tree_height(),
                    ));
                    turned.lemma_rotated_right();
                    turned.lemma_rotated_right_heights();
                }
            } else if self.balance_factor() < -1 {
                let inner = *right->left;
                right->right.lemma_height_bounds();
                inner.lemma_height_bounds();
                assert(right.tree_height() == height_above(
                    inner.tree_height(),
                    right->right.tree_height(),
                ));
                assert(right.balanced() && right.heights_cached() && right.ordered());
                if right.balance_factor() <= 0 {
                    self.lemma_rotated_left();
                    self.lemma_rotated_left_heights();
                } else {
                    inner->left.lemma_height_bounds();
                    inner->right.lemma_height_bounds();
                    assert(inner.tree_height() == height_above(
                        inner->left.tree_height(),
                        inner->right.tree_height(),
                    ));
                    assert(inner.balanced() && inner.heights_cached());
                    let turned = self.with_right(right.rotated_right());
                    right.lemma_rotated_right();
                    right.lemma_rotated_right_heights();
                    assert(turned.ordered());
                    assert(turned.in_order() == self.in_order());
                    assert(turned->right->right.heights_cached());
                    assert(turned->right->right.balanced());
                    assert(turned->right->right.tree_height() == height_above(
                        inner->right.tree_height(),
                        right->right.tree_height(),
                    ));
                    turned.lemma_rotated_left();
                    turned.lemma_rotated_left_heights();
                }
            }
        }
    }

    /// Recomputing the root's height and rebalancing makes a subtree that is
    /// valid below its root valid, keeps its keys and their order, and lowers
    /// its height by at most one, and not at all if it was balanced.
    pub proof fn lemma_settled(self)
        requires
            total_order::<T>(),
            self.wf_below_root(),
        ensures
            self is Node ==> height_above(
                self->left.cached_height(),
                self->right.cached_height(),
            ) <= i32::MAX,
            self.with_height_updated().heights_cached(),
            self.settled().wf(),
            self.settled().in_order() == self.in_order(),
            self.tree_height() - 1 <= self.settled().tree_height() <= self.tree_height(),
            self.balanced() ==> self.settled().tree_height() == self.tree_height(),
            self.wf() ==> self.settled() == self,
            self is Node <==> self.settled() is Node,
    {
        let updated = self.with_height_updated();
        if self is Node {
            self->left.lemma_height_bounds();
            self->right.lemma_height_bounds();
            assert(updated.tree_height() == self.tree_height());
            assert(updated.in_order() == self.in_order());
            assert(updated.wf_below_root());
        }
        updated.lemma_rebalanced();
    }

    /// In a subtree with correct cached heights, every rotation that
    /// rebalancing calls for can be made.
    pub proof fn lemma_rebalancing_rotations(self)
        requires
            self.heights_cached(),
        ensures
            self.balance_factor() > 1 ==> self.can_rotate_right(),
            self.balance_factor() > 1 && self->left.balance_factor() < 0 ==> {
                &&& self->left.can_rotate_left()
                &&& self.with_left(self->left.rotated_left()).can_rotate_right()
            },
            self.balance_factor() < -1 ==> self.can_rotate_left(),
            self.balance_factor() < -1 && self->right.balance_factor() > 0 ==> {
                &&& self->right.can_rotate_right()
                &&& self.with_right(self->right.rotated_right()).can_rotate_left()
            },
    {
        self.lemma_height_bounds();
        if self is Node {
            let left = *self->left;
            let right = *self->right;
            left.lemma_height_bounds();
            right.lemma_height_bounds();
            assert(left.heights_cached() && right.heights_cached());
            assert(self.tree_height() == height_above(left.tree_height(), right.tree_height()));
            if self.balance_factor() > 1 {
                left->left.lemma_height_bounds();
                left->right.lemma_height_bounds();
                assert(left->left.heights_cached() && left->right.heights_cached());
                assert(left.tree_height() == height_above(
                    left->left.tree_height(),
                    left->right.tree_height(),
                ));
                if left.balance_factor() < 0 {
                    let inner = *left->right;
                    inner->left.lemma_height_bounds();
                    inner->right.lemma_height_bounds();
                    assert(inner->left.heights_cached() && inner->right.heights_cached());
                    assert(inner.tree_height() == height_above(
                        inner->left.tree_height(),
                        inner->right.tree_height(),
                    ));
                }
            }
            if self.balance_factor() < -1 {
                right->left.lemma_height_bounds();
                right->right.lemma_height_bounds();
                assert(right->left.heights_cached() && right->right.heights_cached());
                assert(right.tree_height() == height_above(
                    right->left.tree_height(),
                    right->right.tree_height(),
                ));
                if right.balance_factor() > 0 {
                    let inner = *right->left;
                    inner->left.lemma_height_bounds();
                    inner->right.lemma_height_bounds();
                    assert(inner->left.heights_cached() && inner->right.heights_cached());
                    assert(inner.tree_height() == height_above(
                        inner->left.tree_height(),
                        inner->right.tree_height(),
                    ));
                }
            }
        }
    }
}

} // verus!
