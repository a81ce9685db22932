//! Tree nodes and the operations on them.
//!
//! A subtree is either [`BSTNode::Nil`] or a node that owns its two children.
//! Its abstract value is the sequence of its keys from left to right
//! ([`BSTNode::in_order`]); it is valid ([`BSTNode::wf`]) if it is ordered and
//! balanced and every cached height is right.

use crate::model::{all_above, all_below, deleted, inserted, member};
use crate::order::{lemma_trichotomy, total_order};
use vstd::prelude::*;

verus! {

/// An owned subtree.
pub type ChildNode<T> = Box<BSTNode<T>>;

/// A subtree: empty, or a key with a left and a right subtree and the cached
/// height of the whole.
#[derive(Debug)]
pub enum BSTNode<T: Ord> {
    Nil,
    Node { left: ChildNode<T>, right: ChildNode<T>, height: i32, value: T },
}

impl<T: Ord> Default for BSTNode<T> {
    /// The empty subtree.
    fn default() -> (node: Self)
        ensures
            node is Nil,
    {
        BSTNode::Nil
    }
}

/// The height of a node whose children have heights `a` and `b`.
pub open spec fn height_above(a: int, b: int) -> int {
    if a >= b {
        a + 1
    } else {
        b + 1
    }
}

/// The subtree that holds `value` and nothing else.
pub open spec fn leaf<T: Ord>(value: T) -> BSTNode<T> {
    BSTNode::Node {
        left: Box::new(BSTNode::Nil),
        right: Box::new(BSTNode::Nil),
        height: 0,
        value,
    }
}

impl<T: Ord> BSTNode<T> {
    /// The keys of the subtree, left to right.
    pub open spec fn in_order(self) -> Seq<T>
        decreases self,
    {
        match self {
            BSTNode::Nil => Seq::empty(),
            BSTNode::Node { left, right, value, .. } => left.in_order().push(value)
                + right.in_order(),
        }
    }

    /// The height of the subtree: -1 if it is empty, 0 for a leaf.
    pub open spec fn tree_height(self) -> int
        decreases self,
    {
        match self {
            BSTNode::Nil => -1,
            BSTNode::Node { left, right, .. } => height_above(
                left.tree_height(),
                right.tree_height(),
            ),
        }
    }

    /// The height that the root of the subtree has stored, -1 if it is empty.
    pub open spec fn cached_height(self) -> int {
        match self {
            BSTNode::Nil => -1,
            BSTNode::Node { height, .. } => height as int,
        }
    }

    /// Height of the left subtree minus height of the right subtree, as cached
    /// in the two children.
    pub open spec fn balance_factor(self) -> int {
        match self {
            BSTNode::Nil => 0,
            BSTNode::Node { left, right, .. } => left.cached_height() - right.cached_height(),
        }
    }

    /// At every node, each key on the left is below the node's key and each
    /// key on the right is above it.
    pub open spec fn ordered(self) -> bool
        decreases self,
    {
        match self {
            BSTNode::Nil => true,
            BSTNode::Node { left, right, value, .. } => {
                &&& left.ordered()
                &&& right.ordered()
                &&& all_below(left.in_order(), value)
                &&& all_above(right.in_order(), value)
            },
        }
    }

    /// At every node, the heights of the two subtrees differ by at most one.
    pub open spec fn balanced(self) -> bool
        decreases self,
    {
        match self {
            BSTNode::Nil => true,
            BSTNode::Node { left, right, .. } => {
                &&& left.balanced()
                &&& right.balanced()
                &&& -1 <= left.tree_height() - right.tree_height() <= 1
            },
        }
    }

    /// At every node, the cached height is the height of its subtree.
    pub open spec fn heights_cached(self) -> bool
        decreases self,
    {
        match self {
            BSTNode::Nil => true,
            BSTNode::Node { left, right, height, .. } => {
                &&& left.heights_cached()
                &&& right.heights_cached()
                &&& height == self.tree_height()
            },
        }
    }

    /// A valid subtree: ordered, balanced, and with correct cached heights.
    pub open spec fn wf(self) -> bool {
        &&& self.ordered()
        &&& self.balanced()
        &&& self.heights_cached()
    }

    /// A leaf that holds `value`.
    pub fn new(value: T) -> (node: Self)
        ensures
            node == leaf(value),
            node.wf(),
            node.in_order() == seq![value],
            node.tree_height() == 0,
    {
        proof {
            Self::lemma_insertion_into_nil(value);
            reveal_with_fuel(BSTNode::in_order, 2);
            assert(leaf(value).in_order() =~= seq![value]);
        }
        Self::Node {
            left: Box::new(BSTNode::Nil),
            right: Box::new(BSTNode::Nil),
            height: 0,
            value,
        }
    }

    /// Whether some key of the subtree is equivalent to `value`.
    pub(crate) fn contains(self: &ChildNode<T>, value: &T) -> (found: bool)
        requires
            total_order::<T>(),
            self.ordered(),
        ensures
            found == member(self.in_order(), *value),
        decreases **self,
    {
        match **self {
            Self::Nil => false,
            Self::Node { ref left, ref right, value: ref node_value, .. } => {
                proof {
                    lemma_trichotomy(*value, *node_value);
                    self.lemma_member_descends(*value);
                }
                if value == node_value {
                    true
                } else if value > node_value {
                    right.contains(value)
                } else {
                    left.contains(value)
                }
            },
        }
    }

    /// Inserts `new_value` unless an equivalent key is there, and says whether
    /// it did.
    pub(crate) fn insert_balanced(self: &mut ChildNode<T>, new_value: T) -> (added: bool)
        requires
            total_order::<T>(),
            old(self).wf(),
            old(self).tree_height() < i32::MAX,
        ensures
            **final(self) == old(self).with_inserted(new_value),
            final(self).wf(),
            added == !member(old(self).in_order(), new_value),
            final(self).in_order() == inserted(old(self).in_order(), new_value),
            added ==> final(self).in_order().len() == old(self).in_order().len() + 1,
            !added ==> **final(self) == **old(self),
            old(self).tree_height() <= final(self).tree_height() <= old(self).tree_height() + 1,
        decreases **old(self),
    {
        match **self {
            Self::Nil => {
                proof {
                    Self::lemma_insertion_into_nil(new_value);
                }
                **self = Self::new(new_value);
            },
            Self::Node { ref mut left, ref mut right, ref value, .. } => {
                proof {
                    lemma_trichotomy(new_value, *value);
                    old(self).lemma_member_descends(new_value);
                    old(self).lemma_height_bounds();
                    old(self)->left.lemma_height_bounds();
                    old(self)->right.lemma_height_bounds();
                }
                if new_value == *value {
                    proof {
                        old(self).lemma_nothing_to_insert(new_value);
                    }
                    return false;
                }
                let added = if new_value > *value {
                    let added = right.insert_balanced(new_value);
                    proof {
                        if added {
                            old(self).lemma_insertion_on_right(*self->right, new_value);
                        }
                    }
                    added
                } else {
                    let added = left.insert_balanced(new_value);
                    proof {
                        if added {
                            old(self).lemma_insertion_on_left(*self->left, new_value);
                        }
                    }
                    added
                };
                if !added {
                    proof {
                        old(self).lemma_nothing_to_insert(new_value);
                    }
                    return false;
                }
                proof {
                    old(self).lemma_insertion_settles(**self, new_value);
                }
                self.update_height();
            },
        }

        self.rebalance();
        true
    }

    /// Deletes the key equivalent to `value`, if there is one, and says whether
    /// it did.
    pub fn delete_balanced(self: &mut ChildNode<T>, value: &T) -> (removed: bool)
        requires
            total_order::<T>(),
            old(self).wf(),
        ensures
            **final(self) == old(self).with_deleted(*value),
            final(self).wf(),
            removed == member(old(self).in_order(), *value),
            final(self).in_order() == deleted(old(self).in_order(), *value),
            removed ==> final(self).in_order().len() == old(self).in_order().len() - 1,
            !removed ==> **final(self) == **old(self),
            old(self).tree_height() - 1 <= final(self).tree_height() <= old(self).tree_height(),
        decreases **old(self),
    {
        match **self {
            Self::Nil => {
                proof {
                    self.lemma_nothing_to_delete(*value);
                }
                false
            },
            Self::Node { ref mut left, ref mut right, value: ref mut node_value, .. } => {
                proof {
                    lemma_trichotomy(*value, *node_value);
                    old(self).lemma_member_descends(*value);
                }
                let removed = if *value < *node_value {
                    let removed = left.delete_balanced(value);
                    proof {
                        if removed {
                            old(self).lemma_removal_on_left(*self->left, *value);
                        }
                    }
                    removed
                } else if *value > *node_value {
                    let removed = right.delete_balanced(value);
                    proof {
                        if removed {
                            old(self).lemma_removal_on_right(*self->right, *value);
                        }
                    }
                    removed
                } else {
                    let has_left = !matches!(**left, BSTNode::Nil);
                    let has_right = !matches!(**right, BSTNode::Nil);

                    match (has_left, has_right) {
                        (false, false) => {
                            proof {
                                old(self).lemma_removal_of_root_left_nil(*value);
                            }
                            **self = Self::Nil;
                        },
                        (false, true) => {
                            proof {
                                old(self).lemma_removal_of_root_left_nil(*value);
                            }
                            let mut moved: ChildNode<T> = Box::new(BSTNode::Nil);
                            core::mem::swap(self.get_right(), &mut moved);
                            *self = moved;
                        },
                        (true, false) => {
                            proof {
                                old(self).lemma_removal_of_root_right_nil(*value);
                            }
                            let mut moved: ChildNode<T> = Box::new(BSTNode::Nil);
                            core::mem::swap(self.get_left(), &mut moved);
                            *self = moved;
                        },
                        (true, true) => {
                            proof {
                                old(self)->right.lemma_leftmost_is_first();
                            }
                            let smallest_node = right.take_smallest_in_subtree();

                            if let BSTNode::Node { value: smallest_value, .. } = *smallest_node {
                                *node_value = smallest_value;
                            }
                            proof {
                                old(self).lemma_removal_by_successor(*self->right, *value);
                            }
                        },
                    }
                    true
                };

                if removed {
                    proof {
                        old(self).lemma_removal_settles(**self, *value);
                    }
                    self.update_height();
                    self.rebalance();
                } else {
                    proof {
                        old(self).lemma_nothing_to_delete(*value);
                    }
                }
                removed
            },
        }
    }

    /// Whether the cached heights of the two children differ by more than one.
    pub(crate) fn is_imbalanced(self: &ChildNode<T>) -> (imbalanced: bool)
        ensures
            imbalanced == !(-1 <= self.balance_factor() <= 1),
    {
        match **self {
            Self::Nil => false,
            Self::Node { ref left, ref right, .. } => {
                let l: i32 = left.get_height();
                let r: i32 = right.get_height();
                (l > r && l - 1 > r) || (r > l && r - 1 > l)
            },
        }
    }

    /// Whether the left child is cached as higher than the right one.
    pub(crate) fn left_heavy(self: &ChildNode<T>) -> (heavy: bool)
        ensures
            heavy == (self.balance_factor() > 0),
    {
        match **self {
            Self::Nil => false,
            Self::Node { ref left, ref right, .. } => left.get_height() > right.get_height(),
        }
    }

    /// Whether the right child is cached as higher than the left one.
    pub(crate) fn right_heavy(self: &ChildNode<T>) -> (heavy: bool)
        ensures
            heavy == (self.balance_factor() < 0),
    {
        match **self {
            Self::Nil => false,
            Self::Node { ref left, ref right, .. } => right.get_height() > left.get_height(),
        }
    }

    /// The cached height of the subtree.
    pub(crate) fn get_height(self: &ChildNode<T>) -> (h: i32)
        ensures
            h == self.cached_height(),
    {
        match **self {
            Self::Nil => -1,
            Self::Node { height, .. } => height,
        }
    }

    /// The left child of a node, for changing it in place.
    pub(crate) fn get_left<'a>(self: &'a mut ChildNode<T>) -> (child: &'a mut ChildNode<T>)
        requires
            **old(self) is Node,
        ensures
            *child == old(self)->left,
            **final(self) == (BSTNode::Node {
                left: *final(child),
                right: old(self)->right,
                height: old(self)->height,
                value: old(self)->value,
            }),
    {
        match **self {
            Self::Nil => unreached(),
            Self::Node { ref mut left, .. } => left,
        }
    }

    /// The right child of a node, for changing it in place.
    pub(crate) fn get_right<'a>(self: &'a mut ChildNode<T>) -> (child: &'a mut ChildNode<T>)
        requires
            **old(self) is Node,
        ensures
            *child == old(self)->right,
            **final(self) == (BSTNode::Node {
                left: old(self)->left,
                right: *final(child),
                height: old(self)->height,
                value: old(self)->value,
            }),
    {
        match **self {
            Self::Nil => unreached(),
            Self::Node { ref mut right, .. } => right,
        }
    }

    /// Recomputes the cached height of the root from those of its children.
    pub(crate) fn update_height(self: &mut ChildNode<T>)
        requires
            height_above(old(self)->left.cached_height(), old(self)->right.cached_height())
                <= i32::MAX || **old(self) is Nil,
        ensures
            **final(self) == old(self).with_height_updated(),
    {
        match **self {
            Self::Nil => (),
            Self::Node { ref left, ref right, ref mut height, .. } => {
                let l: i32 = left.get_height();
                let r: i32 = right.get_height();
                *height = if l >= r {
                    l + 1
                } else {
                    r + 1
                };
            },
        }
    }

    /// Rotates the subtree to the left at its root.
    pub(crate) fn rotate_left(self: &mut ChildNode<T>)
        requires
            old(self).can_rotate_left(),
        ensures
            **final(self) == old(self).rotated_left(),
    {
        let mut moved: ChildNode<T> = Box::new(BSTNode::Nil);
        core::mem::swap(self.get_right().get_left(), &mut moved);
        core::mem::swap(self.get_right(), &mut moved);
        core::mem::swap(self, &mut moved);
        core::mem::swap(self.get_left(), &mut moved);

        self.get_left().update_height();
        self.update_height();
    }

    /// Rotates the subtree to the right at its root.
    pub(crate) fn rotate_right(self: &mut ChildNode<T>)
        requires
            old(self).can_rotate_right(),
        ensures
            **final(self) == old(self).rotated_right(),
    {
        let mut moved: ChildNode<T> = Box::new(BSTNode::Nil);
        core::mem::swap(self.get_left().get_right(), &mut moved);
        core::mem::swap(self.get_left(), &mut moved);
        core::mem::swap(self, &mut moved);
        core::mem::swap(self.get_right(), &mut moved);

        self.get_right().update_height();
        self.update_height();
    }

    /// Takes the node with the smallest key out of the subtree and returns it,
    /// detached from its former children.
    pub(crate) fn take_smallest_in_subtree(self: &mut ChildNode<T>) -> (smallest: ChildNode<T>)
        requires
            total_order::<T>(),
            old(self).wf(),
            **old(self) is Node,
        ensures
            *smallest == old(self).leftmost().detached(),
            **final(self) == old(self).without_leftmost(),
            smallest->value == old(self).in_order()[0],
            final(self).wf(),
            final(self).in_order() == old(self).in_order().drop_first(),
            old(self).tree_height() - 1 <= final(self).tree_height() <= old(self).tree_height(),
        decreases **old(self),
    {
        match **self {
            Self::Nil => unreached(),
            Self::Node { ref mut left, .. } => {
                proof {
                    old(self).lemma_leftmost_is_first();
                }
                if let Self::Nil = **left {
                    proof {
                        old(self).lemma_leftmost_taken();
                    }
                    let mut moved: ChildNode<T> = Box::new(BSTNode::Nil);
                    core::mem::swap(self.get_right(), &mut moved);
                    core::mem::swap(self, &mut moved);
                    moved
                } else {
                    let smallest = left.take_smallest_in_subtree();
                    proof {
                        old(self).lemma_leftmost_taken_on_left(*self->left);
                        self.lemma_settled();
                    }
                    self.update_height();
                    self.rebalance();
                    smallest
                }
            },
        }
    }

    /// Restores the balance at the root of the subtree.
    pub(crate) fn rebalance(self: &mut ChildNode<T>)
        requires
            old(self).heights_cached(),
        ensures
            **final(self) == old(self).rebalanced(),
    {
        proof {
            reveal(BSTNode::rebalanced);
            self.lemma_rebalancing_rotations();
        }
        if !self.is_imbalanced() {
            return ;
        }
        if self.left_heavy() {
            let left = self.get_left();
            if !left.right_heavy() {
                self.rotate_right();
            } else {
                left.rotate_left();
                self.rotate_right();
            }
        } else {
            // self is right-heavy
            let right = self.get_right();
            if !right.left_heavy() {
                self.rotate_left();
            } else {
                right.rotate_right();
                self.rotate_left();
            }
        }
    }
}

} // verus!
