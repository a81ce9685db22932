//! The keys of an ordered subtree, read left to right.

use crate::model::{
    lemma_bound_excludes, lemma_bound_weakens, lemma_member_split, member, strictly_increasing,
};
use crate::node::BSTNode;
use crate::order::{eqv, lemma_lt_transitive, lemma_trichotomy, lt, total_order};
use vstd::prelude::*;

verus! {

impl<T: Ord> BSTNode<T> {
    /// The keys of an ordered subtree, read left to right, are strictly
    /// increasing.
    pub proof fn lemma_in_order_increasing(self)
        requires
            total_order::<T>(),
            self.ordered(),
        ensures
            strictly_increasing(self.in_order()),
        decreases self,
    {
        match self {
            BSTNode::Nil => {},
            BSTNode::Node { left, right, value, .. } => {
                left.lemma_in_order_increasing();
                right.lemma_in_order_increasing();
                let l = left.in_order();
                let r = right.in_order();
                let s = self.in_order();
                assert forall|i: int, j: int| 0 <= i < j < s.len() implies lt(
                    #[trigger] s[i],
                    #[trigger] s[j],
                ) by {
                    if i < l.len() {
                        assert(s[i] == l[i]);
                    } else if i > l.len() {
                        assert(s[i] == r[i - l.len() - 1]);
                    }
                    if j < l.len() {
                        assert(s[j] == l[j]);
                    } else if j > l.len() {
                        assert(s[j] == r[j - l.len() - 1]);
                    }
                    if i < l.len() && j > l.len() {
                        lemma_lt_transitive(s[i], value, s[j]);
                    }
                }
            },
        }
    }

    /// Only the empty subtree has no keys.
    pub proof fn lemma_in_order_len(self)
        ensures
            self is Nil <==> self.in_order().len() == 0,
    {
    }

    /// Where a key can be in an ordered subtree: below the root's key only on
    /// the left, above it only on the right.
    pub proof fn lemma_member_descends(self, v: T)
        requires
            total_order::<T>(),
            self is Node,
            self.ordered(),
        ensures
            lt(v, self->value) ==> (member(self.in_order(), v) <==> member(
                self->left.in_order(),
                v,
            )),
            lt(self->value, v) ==> (member(self.in_order(), v) <==> member(
                self->right.in_order(),
                v,
            )),
            eqv(self->value, v) ==> member(self.in_order(), v),
    {
        let l = self->left.in_order();
        let r = self->right.in_order();
        let x = self->value;
        lemma_trichotomy(x, v);
        lemma_member_split(l, x, r, v);
        lemma_bound_weakens(l, x, v);
        lemma_bound_weakens(r, x, v);
        if lt(x, v) {
            lemma_bound_excludes(l, v);
        }
        if lt(v, x) {
            lemma_bound_excludes(r, v);
        }
    }
}

} // verus!
