//! The abstract value of a tree: the sequence of its keys in ascending order.
//!
//! Contracts of the tree operations are stated over this sequence. This module
//! defines what membership, insertion and deletion mean on it, and proves how
//! they act on a sequence that is split around one key, which is the shape a
//! tree node gives to its keys.

use crate::order::{
    eqv, lemma_eqv_transitive, lemma_lt_respects_eqv, lemma_lt_transitive, lemma_trichotomy, lt,
    total_order,
};
use vstd::prelude::*;

verus! {

/// Some element of `s` is equivalent to `v`.
pub open spec fn member<T: Ord>(s: Seq<T>, v: T) -> bool {
    exists|i: int| 0 <= i < s.len() && eqv(#[trigger] s[i], v)
}

/// Each element of `s` is strictly below every later one.
pub open spec fn strictly_increasing<T: Ord>(s: Seq<T>) -> bool {
    forall|i: int, j: int| 0 <= i < j < s.len() ==> lt(#[trigger] s[i], #[trigger] s[j])
}

/// Every element of `s` is strictly below `v`.
pub open spec fn all_below<T: Ord>(s: Seq<T>, v: T) -> bool {
    forall|i: int| 0 <= i < s.len() ==> lt(#[trigger] s[i], v)
}

/// Every element of `s` is strictly above `v`.
pub open spec fn all_above<T: Ord>(s: Seq<T>, v: T) -> bool {
    forall|i: int| 0 <= i < s.len() ==> lt(v, #[trigger] s[i])
}

/// The keys strictly below `v`.
pub open spec fn below<T: Ord>(v: T) -> spec_fn(T) -> bool {
    |e: T| lt(e, v)
}

/// The keys strictly above `v`.
pub open spec fn above<T: Ord>(v: T) -> spec_fn(T) -> bool {
    |e: T| lt(v, e)
}

/// The keys that are not equivalent to `v`.
pub open spec fn other_than<T: Ord>(v: T) -> spec_fn(T) -> bool {
    |e: T| !eqv(e, v)
}

/// `s` after inserting `v`: unchanged if `v` is already there, otherwise the
/// elements below `v`, then `v`, then the elements above it.
pub open spec fn inserted<T: Ord>(s: Seq<T>, v: T) -> Seq<T> {
    if member(s, v) {
        s
    } else {
        s.filter(below(v)).push(v) + s.filter(above(v))
    }
}

/// `s` after deleting `v`: the elements that are not equivalent to `v`, in
/// their order.
pub open spec fn deleted<T: Ord>(s: Seq<T>, v: T) -> Seq<T> {
    s.filter(other_than(v))
}

/// A filter that every element passes changes nothing.
pub proof fn lemma_filter_keeps_all<T>(s: Seq<T>, p: spec_fn(T) -> bool)
    requires
        forall|i: int| 0 <= i < s.len() ==> p(#[trigger] s[i]),
    ensures
        s.filter(p) == s,
    decreases s.len(),
{
    reveal(Seq::filter);
    if s.len() > 0 {
        lemma_filter_keeps_all(s.drop_last(), p);
        assert(s.drop_last().push(s.last()) =~= s);
    }
}

/// A filter that no element passes leaves nothing.
pub proof fn lemma_filter_drops_all<T>(s: Seq<T>, p: spec_fn(T) -> bool)
    requires
        forall|i: int| 0 <= i < s.len() ==> !p(#[trigger] s[i]),
    ensures
        s.filter(p) == Seq::<T>::empty(),
    decreases s.len(),
{
    reveal(Seq::filter);
    if s.len() > 0 {
        lemma_filter_drops_all(s.drop_last(), p);
    } else {
        assert(s =~= Seq::<T>::empty());
    }
}

/// Filtering a sequence split around one key filters the three parts.
pub proof fn lemma_filter_split<T>(l: Seq<T>, x: T, r: Seq<T>, p: spec_fn(T) -> bool)
    ensures
        (l.push(x) + r).filter(p) == if p(x) {
            l.filter(p).push(x) + r.filter(p)
        } else {
            l.filter(p) + r.filter(p)
        },
{
    Seq::filter_distributes_over_add(l.push(x), r, p);
    l.lemma_filter_push(x, p);
}

/// Membership in a sequence split around one key.
pub proof fn lemma_member_split<T: Ord>(l: Seq<T>, x: T, r: Seq<T>, v: T)
    ensures
        member(l.push(x) + r, v) <==> member(l, v) || eqv(x, v) || member(r, v),
{
    let s = l.push(x) + r;
    if member(l, v) {
        let i = choose|i: int| 0 <= i < l.len() && eqv(#[trigger] l[i], v);
        assert(s[i] == l[i]);
    }
    if eqv(x, v) {
        assert(s[l.len() as int] == x);
    }
    if member(r, v) {
        let i = choose|i: int| 0 <= i < r.len() && eqv(#[trigger] r[i], v);
        assert(s[l.len() + 1 + i] == r[i]);
    }
    if member(s, v) {
        let i = choose|i: int| 0 <= i < s.len() && eqv(#[trigger] s[i], v);
        if i < l.len() {
            assert(s[i] == l[i]);
        } else if i > l.len() {
            assert(s[i] == r[i - l.len() - 1]);
        }
    }
}

/// A key that lies strictly on one side of every element is not among them.
pub proof fn lemma_bound_excludes<T: Ord>(s: Seq<T>, v: T)
    requires
        total_order::<T>(),
        all_below(s, v) || all_above(s, v),
    ensures
        !member(s, v),
{
    if member(s, v) {
        let i = choose|i: int| 0 <= i < s.len() && eqv(#[trigger] s[i], v);
        lemma_trichotomy(s[i], v);
    }
}

/// A bound carries over to every key above it, or below it.
pub proof fn lemma_bound_weakens<T: Ord>(s: Seq<T>, x: T, v: T)
    requires
        total_order::<T>(),
    ensures
        all_below(s, x) && lt(x, v) ==> all_below(s, v),
        all_above(s, x) && lt(v, x) ==> all_above(s, v),
        all_below(s, x) && eqv(x, v) ==> all_below(s, v),
        all_above(s, x) && eqv(x, v) ==> all_above(s, v),
{
    assert forall|i: int| 0 <= i < s.len() implies (all_below(s, x) && lt(x, v) ==> lt(
        #[trigger] s[i],
        v,
    )) && (all_above(s, x) && lt(v, x) ==> lt(v, s[i])) && (all_below(s, x) && eqv(x, v) ==> lt(
        s[i],
        v,
    )) && (all_above(s, x) && eqv(x, v) ==> lt(v, s[i])) by {
        if all_below(s, x) && lt(x, v) {
            lemma_lt_transitive(s[i], x, v);
        }
        if all_above(s, x) && lt(v, x) {
            lemma_lt_transitive(v, x, s[i]);
        }
        if eqv(x, v) {
            lemma_lt_respects_eqv(x, v, s[i]);
        }
    }
}

/// Inserting a key below `x` into a sequence split around `x` inserts it into
/// the lower part.
pub proof fn lemma_inserted_left<T: Ord>(l: Seq<T>, x: T, r: Seq<T>, v: T)
    requires
        total_order::<T>(),
        lt(v, x),
        all_above(r, x),
    ensures
        member(l.push(x) + r, v) <==> member(l, v),
        inserted(l.push(x) + r, v) == inserted(l, v).push(x) + r,
{
    lemma_member_split(l, x, r, v);
    lemma_trichotomy(x, v);
    lemma_bound_weakens(r, x, v);
    lemma_bound_excludes(r, v);
    if !member(l, v) {
        lemma_filter_split(l, x, r, below(v));
        lemma_filter_split(l, x, r, above(v));
        assert forall|i: int| 0 <= i < r.len() implies !below(v)(#[trigger] r[i]) && above(v)(
            r[i],
        ) by {
            lemma_trichotomy(r[i], v);
        }
        lemma_filter_drops_all(r, below(v));
        lemma_filter_keeps_all(r, above(v));
        assert(inserted(l.push(x) + r, v) =~= inserted(l, v).push(x) + r);
    }
}

/// Inserting a key above `x` into a sequence split around `x` inserts it into
/// the upper part.
pub proof fn lemma_inserted_right<T: Ord>(l: Seq<T>, x: T, r: Seq<T>, v: T)
    requires
        total_order::<T>(),
        lt(x, v),
        all_below(l, x),
    ensures
        member(l.push(x) + r, v) <==> member(r, v),
        inserted(l.push(x) + r, v) == l.push(x) + inserted(r, v),
{
    lemma_member_split(l, x, r, v);
    lemma_trichotomy(x, v);
    lemma_bound_weakens(l, x, v);
    lemma_bound_excludes(l, v);
    if !member(r, v) {
        lemma_filter_split(l, x, r, below(v));
        lemma_filter_split(l, x, r, above(v));
        assert forall|i: int| 0 <= i < l.len() implies below(v)(#[trigger] l[i]) && !above(v)(
            l[i],
        ) by {
            lemma_trichotomy(l[i], v);
        }
        lemma_filter_keeps_all(l, below(v));
        lemma_filter_drops_all(l, above(v));
        assert(inserted(l.push(x) + r, v) =~= l.push(x) + inserted(r, v));
    }
}

/// Deleting a key below `x` from a sequence split around `x` deletes it from
/// the lower part.
pub proof fn lemma_deleted_left<T: Ord>(l: Seq<T>, x: T, r: Seq<T>, v: T)
    requires
        total_order::<T>(),
        lt(v, x),
        all_above(r, x),
    ensures
        member(l.push(x) + r, v) <==> member(l, v),
        deleted(l.push(x) + r, v) == deleted(l, v).push(x) + r,
{
    lemma_member_split(l, x, r, v);
    lemma_trichotomy(x, v);
    lemma_bound_weakens(r, x, v);
    lemma_bound_excludes(r, v);
    lemma_filter_split(l, x, r, other_than(v));
    lemma_filter_keeps_all(r, other_than(v));
}

/// Deleting a key above `x` from a sequence split around `x` deletes it from
/// the upper part.
pub proof fn lemma_deleted_right<T: Ord>(l: Seq<T>, x: T, r: Seq<T>, v: T)
    requires
        total_order::<T>(),
        lt(x, v),
        all_below(l, x),
    ensures
        member(l.push(x) + r, v) <==> member(r, v),
        deleted(l.push(x) + r, v) == l.push(x) + deleted(r, v),
{
    lemma_member_split(l, x, r, v);
    lemma_trichotomy(x, v);
    lemma_bound_weakens(l, x, v);
    lemma_bound_excludes(l, v);
    lemma_filter_split(l, x, r, other_than(v));
    lemma_filter_keeps_all(l, other_than(v));
    assert(deleted(l.push(x) + r, v) =~= l.push(x) + deleted(r, v));
}

/// Deleting the key that a sequence is split around leaves the two parts.
pub proof fn lemma_deleted_here<T: Ord>(l: Seq<T>, x: T, r: Seq<T>, v: T)
    requires
        total_order::<T>(),
        eqv(x, v),
        all_below(l, x),
        all_above(r, x),
    ensures
        member(l.push(x) + r, v),
        deleted(l.push(x) + r, v) == l + r,
{
    lemma_member_split(l, x, r, v);
    lemma_bound_weakens(l, x, v);
    lemma_bound_weakens(r, x, v);
    lemma_bound_excludes(l, v);
    lemma_bound_excludes(r, v);
    lemma_filter_split(l, x, r, other_than(v));
    lemma_filter_keeps_all(l, other_than(v));
    lemma_filter_keeps_all(r, other_than(v));
}

/// Deleting a key that is not there changes nothing.
pub proof fn lemma_deleted_absent<T: Ord>(s: Seq<T>, v: T)
    requires
        !member(s, v),
    ensures
        deleted(s, v) == s,
{
    lemma_filter_keeps_all(s, other_than(v));
}

/// What a filter lets through was in the sequence, so it keeps every bound
/// that the sequence had.
pub proof fn lemma_filter_keeps_bound<T: Ord>(s: Seq<T>, p: spec_fn(T) -> bool, x: T)
    ensures
        all_below(s, x) ==> all_below(s.filter(p), x),
        all_above(s, x) ==> all_above(s.filter(p), x),
{
    let f = s.filter(p);
    assert forall|i: int| 0 <= i < f.len() implies (all_below(s, x) ==> lt(#[trigger] f[i], x))
        && (all_above(s, x) ==> lt(x, f[i])) by {
        assert(f.contains(f[i]));
        s.lemma_filter_contains_rev(p, f[i]);
        let j = choose|j: int| 0 <= j < s.len() && s[j] == f[i];
        assert(s[j] == f[i]);
    }
}

/// Inserting a key on the right side of a bound keeps the bound.
pub proof fn lemma_inserted_keeps_bound<T: Ord>(s: Seq<T>, v: T, x: T)
    ensures
        all_below(s, x) && lt(v, x) ==> all_below(inserted(s, v), x),
        all_above(s, x) && lt(x, v) ==> all_above(inserted(s, v), x),
{
    if !member(s, v) {
        let lo = s.filter(below(v));
        let hi = s.filter(above(v));
        let t = lo.push(v) + hi;
        lemma_filter_keeps_bound(s, below(v), x);
        lemma_filter_keeps_bound(s, above(v), x);
        assert forall|i: int| 0 <= i < t.len() implies (all_below(s, x) && lt(v, x) ==> lt(
            #[trigger] t[i],
            x,
        )) && (all_above(s, x) && lt(x, v) ==> lt(x, t[i])) by {
            if i < lo.len() {
                assert(t[i] == lo[i]);
            } else if i > lo.len() {
                assert(t[i] == hi[i - lo.len() - 1]);
            }
        }
    }
}

/// Deleting a key keeps every bound.
pub proof fn lemma_deleted_keeps_bound<T: Ord>(s: Seq<T>, v: T, x: T)
    ensures
        all_below(s, x) ==> all_below(deleted(s, v), x),
        all_above(s, x) ==> all_above(deleted(s, v), x),
{
    lemma_filter_keeps_bound(s, other_than(v), x);
}

/// Deleting the key that a sequence is split around leaves the sequence split
/// around the first element of the upper part, if there is one.
pub proof fn lemma_deleted_here_successor<T: Ord>(l: Seq<T>, x: T, r: Seq<T>, v: T)
    requires
        total_order::<T>(),
        eqv(x, v),
        all_below(l, x),
        all_above(r, x),
        r.len() > 0,
    ensures
        deleted(l.push(x) + r, v) == l.push(r[0]) + r.drop_first(),
        (l.push(r[0]) + r.drop_first()).len() == (l.push(x) + r).len() - 1,
{
    lemma_deleted_here(l, x, r, v);
    assert(l.push(r[0]) + r.drop_first() =~= l + r);
}

/// In a strictly increasing sequence, the first element is below all others.
pub proof fn lemma_first_is_least<T: Ord>(r: Seq<T>)
    requires
        strictly_increasing(r),
        r.len() > 0,
    ensures
        all_above(r.drop_first(), r[0]),
{
    assert forall|i: int| 0 <= i < r.drop_first().len() implies lt(
        r[0],
        #[trigger] r.drop_first()[i],
    ) by {
        assert(r.drop_first()[i] == r[i + 1]);
    }
}

/// What passes a filter is what was in the sequence and satisfies the filter.
pub proof fn lemma_filter_member<T: Ord>(s: Seq<T>, p: spec_fn(T) -> bool, x: T)
    ensures
        member(s.filter(p), x) <==> exists|i: int|
            0 <= i < s.len() && p(#[trigger] s[i]) && eqv(s[i], x),
{
    let f = s.filter(p);
    if member(f, x) {
        let k = choose|k: int| 0 <= k < f.len() && eqv(#[trigger] f[k], x);
        s.lemma_filter_pred(p, k);
        assert(f.contains(f[k]));
        s.lemma_filter_contains_rev(p, f[k]);
        let i = choose|i: int| 0 <= i < s.len() && s[i] == f[k];
        assert(p(s[i]) && eqv(s[i], x));
    }
    if exists|i: int| 0 <= i < s.len() && p(#[trigger] s[i]) && eqv(s[i], x) {
        let i = choose|i: int| 0 <= i < s.len() && p(#[trigger] s[i]) && eqv(s[i], x);
        s.lemma_filter_contains(p, i);
        let k = choose|k: int| 0 <= k < f.len() && f[k] == s[i];
        assert(eqv(f[k], x));
    }
}

/// After inserting `v`, a key is there if it was there before or is
/// equivalent to `v`.
pub proof fn lemma_inserted_member<T: Ord>(s: Seq<T>, v: T, x: T)
    requires
        total_order::<T>(),
    ensures
        member(inserted(s, v), x) <==> member(s, x) || eqv(x, v),
{
    lemma_trichotomy(x, v);
    if member(s, v) {
        if eqv(x, v) {
            let i = choose|i: int| 0 <= i < s.len() && eqv(#[trigger] s[i], v);
            lemma_eqv_transitive(s[i], v, x);
        }
    } else {
        let lo = s.filter(below(v));
        let hi = s.filter(above(v));
        lemma_member_split(lo, v, hi, x);
        lemma_filter_member(s, below(v), x);
        lemma_filter_member(s, above(v), x);
        if member(s, x) {
            let i = choose|i: int| 0 <= i < s.len() && eqv(#[trigger] s[i], x);
            lemma_trichotomy(s[i], v);
            assert(below(v)(s[i]) || above(v)(s[i]));
            assert(member(lo, x) || member(hi, x));
        }
        if member(lo, x) {
            let i = choose|i: int| 0 <= i < s.len() && below(v)(#[trigger] s[i]) && eqv(s[i], x);
            assert(member(s, x));
        }
        if member(hi, x) {
            let i = choose|i: int| 0 <= i < s.len() && above(v)(#[trigger] s[i]) && eqv(s[i], x);
            assert(member(s, x));
        }
    }
}

/// After deleting `v`, a key is there if it was there before and is not
/// equivalent to `v`.
pub proof fn lemma_deleted_member<T: Ord>(s: Seq<T>, v: T, x: T)
    requires
        total_order::<T>(),
    ensures
        member(deleted(s, v), x) <==> member(s, x) && !eqv(x, v),
{
    lemma_filter_member(s, other_than(v), x);
    if member(deleted(s, v), x) {
        let i = choose|i: int|
            0 <= i < s.len() && other_than(v)(#[trigger] s[i]) && eqv(s[i], x);
        lemma_lt_respects_eqv(s[i], x, v);
    }
    if member(s, x) && !eqv(x, v) {
        let i = choose|i: int| 0 <= i < s.len() && eqv(#[trigger] s[i], x);
        lemma_lt_respects_eqv(s[i], x, v);
        assert(other_than(v)(s[i]));
    }
}

} // verus!
