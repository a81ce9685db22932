//! How high a balanced tree can be.
//!
//! A balanced tree of a given height has at least as many keys as the recurrence
//! [`min_size`] says, which grows exponentially. So the height is logarithmic
//! in the number of keys, and far from the limit of the field that caches it.

use crate::node::BSTNode;
use vstd::arithmetic::power2::{lemma2_to64, lemma_pow2_strictly_increases, lemma_pow2_unfold, pow2};
use vstd::prelude::*;

verus! {

/// The least number of keys that a balanced tree of height `h` can have: one
/// for the root, and the least for one child of height `h - 1` and one of
/// height `h - 2`.
pub open spec fn min_size(h: int) -> nat
    decreases h + 1,
{
    if h < 0 {
        0
    } else if h == 0 {
        1
    } else {
        1 + min_size(h - 1) + min_size(h - 2)
    }
}

/// A higher tree needs no fewer keys.
pub proof fn lemma_min_size_monotonic(a: int, b: int)
    requires
        a <= b,
    ensures
        min_size(a) <= min_size(b),
    decreases b,
{
    if a < b && b >= 1 {
        lemma_min_size_monotonic(a, b - 1);
    }
}

/// Two more levels at least double the number of keys: `min_size(h) + 1` is
/// at least 2 to the power of half of `h + 1`, rounded down.
pub proof fn lemma_min_size_exponential(h: int)
    requires
        h >= -1,
    ensures
        min_size(h) + 1 >= pow2(((h + 1) / 2) as nat),
    decreases h + 1,
{
    lemma2_to64();
    if h >= 1 {
        lemma_min_size_exponential(h - 2);
        lemma_min_size_monotonic(h - 2, h - 1);
        let e = ((h + 1) / 2) as nat;
        assert(((h - 1) / 2) as nat == e - 1);
        lemma_pow2_unfold(e);
    }
}

impl<T: Ord> BSTNode<T> {
    /// A balanced subtree has at least [`min_size`] keys for its height.
    pub proof fn lemma_size_at_least(self)
        requires
            self.balanced(),
        ensures
            self.in_order().len() >= min_size(self.tree_height()),
        decreases self,
    {
        match self {
            BSTNode::Nil => {},
            BSTNode::Node { left, right, .. } => {
                left.lemma_size_at_least();
                right.lemma_size_at_least();
                left.lemma_height_bounds();
                right.lemma_height_bounds();
                let h = self.tree_height();
                if left.tree_height() >= right.tree_height() {
                    lemma_min_size_monotonic(h - 2, right.tree_height());
                } else {
                    lemma_min_size_monotonic(h - 2, left.tree_height());
                }
            },
        }
    }

    /// The height of a balanced subtree is logarithmic in the number of its
    /// keys: 2 to the power of half the height plus one, rounded down, is at
    /// most the number of keys plus one.
    pub proof fn lemma_height_logarithmic(self)
        requires
            self.balanced(),
        ensures
            pow2(((self.tree_height() + 1) / 2) as nat) <= self.in_order().len() + 1,
    {
        self.lemma_size_at_least();
        self.lemma_height_bounds();
        lemma_min_size_exponential(self.tree_height());
    }

    /// A balanced subtree with fewer keys than a `u32` can count is lower
    /// than 63.
    pub proof fn lemma_height_small(self)
        requires
            self.balanced(),
            self.in_order().len() < u32::MAX,
        ensures
            self.tree_height() < 63,
    {
        self.lemma_height_logarithmic();
        self.lemma_height_bounds();
        lemma2_to64();
        let e = ((self.tree_height() + 1) / 2) as nat;
        if e > 32 {
            lemma_pow2_strictly_increases(32, e);
        }
    }
}

} // verus!
