//! The total order on keys.
//!
//! A key type brings its order through `Ord`. Everything proved about the tree
//! rests on that order being lawful, which is stated once here
//! ([`total_order`]) together with the two relations that the rest of the
//! crate speaks of: strictly-less ([`lt`]) and equivalent ([`eqv`]).

use core::cmp::Ordering;
use vstd::laws_cmp::{
    obeys_cmp, obeys_cmp_ord, obeys_cmp_partial_ord, obeys_partial_cmp_spec_properties,
};
use vstd::laws_eq::obeys_eq_spec_properties;
use vstd::prelude::*;
use vstd::std_specs::cmp::{OrdSpec, PartialEqSpec, PartialOrdSpec};

verus! {

/// The comparison operators of `T` agree with one lawful total order:
/// `==` is an equivalence, `<` is transitive, and of `a < b`, `a == b`,
/// `b < a` exactly one holds.
pub open spec fn total_order<T: Ord>() -> bool {
    obeys_cmp::<T>()
}

/// `a` is strictly below `b`: what `a < b` computes.
pub open spec fn lt<T: Ord>(a: T, b: T) -> bool {
    a.partial_cmp_spec(&b) == Some(Ordering::Less)
}

/// `a` and `b` are the same key: what `a == b` computes.
pub open spec fn eqv<T: Ord>(a: T, b: T) -> bool {
    a.eq_spec(&b)
}

/// What the comparison operators return, in terms of [`lt`] and [`eqv`].
pub open spec fn operators_agree<T: Ord>(a: T, b: T) -> bool {
    &&& T::obeys_eq_spec()
    &&& T::obeys_partial_cmp_spec()
    &&& a.partial_cmp_spec(&b) == Some(Ordering::Greater) <==> lt(b, a)
}

/// Of `a < b`, `a == b` and `b < a` exactly one holds, and the operators
/// `==`, `<` and `>` compute them.
pub proof fn lemma_trichotomy<T: Ord>(a: T, b: T)
    requires
        total_order::<T>(),
    ensures
        lt(a, b) || eqv(a, b) || lt(b, a),
        !(lt(a, b) && eqv(a, b)),
        !(lt(a, b) && lt(b, a)),
        !(eqv(a, b) && lt(b, a)),
        eqv(a, b) <==> eqv(b, a),
        operators_agree(a, b),
{
    reveal(obeys_cmp_partial_ord);
    reveal(obeys_cmp_ord);
    reveal(obeys_partial_cmp_spec_properties);
    reveal(obeys_eq_spec_properties);
    assert(a.partial_cmp_spec(&b) == Some(a.cmp_spec(&b)));
    assert(b.partial_cmp_spec(&a) == Some(b.cmp_spec(&a)));
}

/// Equivalence is transitive.
pub proof fn lemma_eqv_transitive<T: Ord>(a: T, b: T, c: T)
    requires
        total_order::<T>(),
        eqv(a, b),
        eqv(b, c),
    ensures
        eqv(a, c),
{
    reveal(obeys_eq_spec_properties);
}

/// Strictly-less is transitive.
pub proof fn lemma_lt_transitive<T: Ord>(a: T, b: T, c: T)
    requires
        total_order::<T>(),
        lt(a, b),
        lt(b, c),
    ensures
        lt(a, c),
{
    reveal(obeys_partial_cmp_spec_properties);
}

/// Equivalent keys stand in the same relation to every other key.
pub proof fn lemma_lt_respects_eqv<T: Ord>(a: T, b: T, c: T)
    requires
        total_order::<T>(),
        eqv(a, b),
    ensures
        lt(a, c) <==> lt(b, c),
        lt(c, a) <==> lt(c, b),
        eqv(a, c) <==> eqv(b, c),
{
    lemma_trichotomy(a, b);
    lemma_trichotomy(a, c);
    lemma_trichotomy(b, c);
    if eqv(a, c) {
        lemma_eqv_transitive(b, a, c);
    }
    if eqv(b, c) {
        lemma_eqv_transitive(a, b, c);
    }
    if lt(a, c) && lt(c, b) {
        lemma_lt_transitive(a, c, b);
    }
    if lt(b, c) && lt(c, a) {
        lemma_lt_transitive(b, c, a);
    }
}

} // verus!
