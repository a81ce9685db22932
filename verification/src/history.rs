//! What a tree holds after a history of insertions and deletions.

use crate::model::{deleted, inserted, lemma_deleted_member, lemma_inserted_member, member};
use crate::order::{eqv, total_order};
use vstd::prelude::*;

verus! {

/// One change to a tree.
pub enum Edit<T> {
    Insert(T),
    Delete(T),
}

/// The keys of a tree that started empty and went through `edits` in order.
pub open spec fn replay<T: Ord>(edits: Seq<Edit<T>>) -> Seq<T>
    decreases edits.len(),
{
    if edits.len() == 0 {
        Seq::empty()
    } else {
        let before = replay(edits.drop_last());
        match edits.last() {
            Edit::Insert(v) => inserted(before, v),
            Edit::Delete(v) => deleted(before, v),
        }
    }
}

/// `x` was inserted by `edits` and not deleted afterwards.
pub open spec fn kept<T: Ord>(edits: Seq<Edit<T>>, x: T) -> bool
    decreases edits.len(),
{
    if edits.len() == 0 {
        false
    } else {
        match edits.last() {
            Edit::Insert(v) => eqv(x, v) || kept(edits.drop_last(), x),
            Edit::Delete(v) => !eqv(x, v) && kept(edits.drop_last(), x),
        }
    }
}

/// After any history, a key is found exactly if it was inserted and not
/// deleted afterwards.
pub proof fn lemma_round_trip<T: Ord>(edits: Seq<Edit<T>>, x: T)
    requires
        total_order::<T>(),
    ensures
        member(replay(edits), x) <==> kept(edits, x),
    decreases edits.len(),
{
    if edits.len() > 0 {
        let before = replay(edits.drop_last());
        lemma_round_trip(edits.drop_last(), x);
        match edits.last() {
            Edit::Insert(v) => lemma_inserted_member(before, v, x),
            Edit::Delete(v) => lemma_deleted_member(before, v, x),
        }
    }
}

} // verus!
