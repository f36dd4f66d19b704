//! The order of respondent ids, and when it can be relied on.

use vstd::prelude::*;
use vstd::laws_cmp::obeys_cmp;
use vstd::laws_eq::obeys_concrete_eq;
use vstd::std_specs::cmp::{OrdSpec, PartialOrdSpec};

verus! {

/// `a` comes strictly before `b` in the order of `T`.
pub open spec fn precedes<T: Ord>(a: T, b: T) -> bool {
    a.cmp_spec(&b) is Less
}

/// The comparisons of `T` can be relied on: they compute what their
/// specifications say, they form a total order, and two values compare equal
/// only when they are the same value.
pub open spec fn lawful_order<T: Ord>() -> bool {
    &&& obeys_cmp::<T>()
    &&& obeys_concrete_eq::<T>()
}

/// Whether `a` comes strictly before `b`.
pub fn comes_before<T: Ord>(a: &T, b: &T) -> (r: bool)
    ensures
        lawful_order::<T>() ==> r == precedes(*a, *b),
{
    proof {
        reveal(vstd::laws_cmp::obeys_cmp_ord);
        reveal(vstd::laws_cmp::obeys_cmp_partial_ord);
    }
    *a < *b
}

/// Under a lawful order `precedes` is a strict total order: nothing precedes
/// itself, no two values precede each other, it is transitive, and of two
/// different values one precedes the other.
pub proof fn lemma_strict_total_order<T: Ord>(a: T, b: T, c: T)
    requires
        lawful_order::<T>(),
    ensures
        !precedes(a, a),
        precedes(a, b) ==> !precedes(b, a),
        precedes(a, b) && precedes(b, c) ==> precedes(a, c),
        a != b ==> precedes(a, b) || precedes(b, a),
{
    reveal(vstd::laws_cmp::obeys_cmp_ord);
    reveal(vstd::laws_cmp::obeys_cmp_partial_ord);
    reveal(vstd::laws_cmp::obeys_partial_cmp_spec_properties);
    reveal(vstd::laws_eq::obeys_eq_spec_properties);
    reveal(obeys_concrete_eq);
    assert(a.partial_cmp_spec(&b) == Some(a.cmp_spec(&b)));
    assert(b.partial_cmp_spec(&a) == Some(b.cmp_spec(&a)));
    assert(a.partial_cmp_spec(&a) == Some(a.cmp_spec(&a)));
    assert(b.partial_cmp_spec(&c) == Some(b.cmp_spec(&c)));
    assert(a.partial_cmp_spec(&c) == Some(a.cmp_spec(&c)));
}

/// The integer types are lawfully ordered.
pub proof fn lemma_integers_lawful()
    ensures
        lawful_order::<u8>(),
        lawful_order::<u16>(),
        lawful_order::<u32>(),
        lawful_order::<u64>(),
        lawful_order::<u128>(),
        lawful_order::<usize>(),
        lawful_order::<i8>(),
        lawful_order::<i16>(),
        lawful_order::<i32>(),
        lawful_order::<i64>(),
        lawful_order::<i128>(),
        lawful_order::<isize>(),
{
    broadcast use vstd::laws_cmp::group_laws_cmp;
    broadcast use vstd::laws_eq::group_laws_eq;
}

/// References are lawfully ordered where what they refer to is.
pub proof fn lemma_references_lawful<T: Ord>()
    requires
        lawful_order::<T>(),
    ensures
        lawful_order::<&T>(),
{
    broadcast use vstd::laws_cmp::lemma_ref_obeys_cmp_spec;

    reveal(obeys_concrete_eq);
}

/// Pairs are lawfully ordered where both their parts are.
pub proof fn lemma_pairs_lawful<A: Ord, B: Ord>()
    requires
        lawful_order::<A>(),
        lawful_order::<B>(),
    ensures
        lawful_order::<(A, B)>(),
{
    broadcast use vstd::laws_cmp::group_laws_cmp;

    reveal(obeys_concrete_eq);
}

} // verus!
