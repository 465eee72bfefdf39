//! The order that the search puts on scores and on scored solutions.
//!
//! A host type brings its own `==` and `<`. Everything here is stated under
//! the assumption [`total_order`], which says that the two behave as a strict
//! total order on the values of the type.

use core::cmp::Ordering;
use vstd::laws_cmp::obeys_cmp;
use vstd::laws_cmp::obeys_cmp_ord;
use vstd::laws_cmp::obeys_cmp_partial_ord;
use vstd::laws_cmp::obeys_partial_cmp_spec_properties;
use vstd::laws_eq::obeys_concrete_eq;
use vstd::prelude::*;
use vstd::std_specs::cmp::PartialOrdSpec;

verus! {

/// `==` on `T` decides equality of values, and `<` is a strict total order
/// that agrees with it.
pub open spec fn total_order<T: Ord>() -> bool {
    &&& obeys_cmp::<T>()
    &&& obeys_concrete_eq::<T>()
}

/// `a` comes strictly before `b` in the order of `T`.
pub open spec fn lt<T: PartialOrd>(a: T, b: T) -> bool {
    a.partial_cmp_spec(&b) == Some(Ordering::Less)
}

/// `a` comes before `b` or equals it.
pub open spec fn le<T: PartialOrd>(a: T, b: T) -> bool {
    lt(a, b) || a == b
}

/// Of two values exactly one comes first, unless they are equal.
pub proof fn lemma_trichotomy<T: Ord>(a: T, b: T)
    requires
        total_order::<T>(),
    ensures
        lt(a, b) || a == b || lt(b, a),
        !(lt(a, b) && a == b),
        !(lt(a, b) && lt(b, a)),
        le(a, b) <==> !lt(b, a),
{
    reveal(obeys_cmp_ord);
    reveal(obeys_partial_cmp_spec_properties);
    reveal(obeys_concrete_eq);
}

/// What comes before something that comes before `c` comes before `c`.
pub proof fn lemma_lt_transitive<T: Ord>(a: T, b: T, c: T)
    requires
        total_order::<T>(),
        lt(a, b),
        lt(b, c),
    ensures
        lt(a, c),
{
    reveal(obeys_partial_cmp_spec_properties);
}

/// `le` is transitive, and strict where one of its steps is.
pub proof fn lemma_le_transitive<T: Ord>(a: T, b: T, c: T)
    requires
        total_order::<T>(),
        le(a, b),
        le(b, c),
    ensures
        le(a, c),
        lt(a, b) || lt(b, c) ==> lt(a, c),
{
    if lt(a, b) && lt(b, c) {
        lemma_lt_transitive(a, b, c);
    }
}

/// Decides `lt`.
pub fn is_lt<T: Ord>(a: &T, b: &T) -> (before: bool)
    requires
        total_order::<T>(),
    ensures
        before == lt(*a, *b),
{
    proof {
        reveal(obeys_cmp_partial_ord);
    }
    *a < *b
}

/// Decides equality of values.
pub fn is_same<T: Ord>(a: &T, b: &T) -> (same: bool)
    requires
        total_order::<T>(),
    ensures
        same == (*a == *b),
{
    proof {
        reveal(obeys_concrete_eq);
    }
    *a == *b
}

} // verus!
