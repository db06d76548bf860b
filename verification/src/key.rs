//! Ordering model for keys of the ordered containers.
//!
//! Ordered containers are correct for every key type whose `Ord` and
//! `PartialEq` implementations obey the laws that vstd states
//! (`obeys_cmp`) and whose equality is structural (`obeys_concrete_eq`).
//! All primitive integer types satisfy both.

use vstd::prelude::*;
use vstd::laws_cmp::obeys_cmp;
use vstd::laws_eq::obeys_concrete_eq;
use core::cmp::Ordering;
use vstd::std_specs::cmp::{OrdSpec, PartialOrdSpec};

verus! {

/// The key type orders and compares its values by their identity.
pub open spec fn ordered_key<T: Ord>() -> bool {
    obeys_cmp::<T>() && obeys_concrete_eq::<T>()
}

/// Strict order between two keys.
pub open spec fn key_lt<T: Ord>(a: T, b: T) -> bool {
    a.cmp_spec(&b) == Ordering::Less
}

/// The strict order is a strict total order on keys.
pub proof fn lemma_key_order<T: Ord>()
    requires
        ordered_key::<T>(),
    ensures
        forall|a: T, b: T| #![trigger key_lt(a, b)] key_lt(a, b) ==> a != b && !key_lt(b, a),
        forall|a: T, b: T| #![trigger key_lt(a, b), key_lt(b, a)]
            a != b ==> key_lt(a, b) || key_lt(b, a),
        forall|a: T, b: T, c: T| #![trigger key_lt(a, b), key_lt(b, c)]
            key_lt(a, b) && key_lt(b, c) ==> key_lt(a, c),
{
    lemma_cmp_spec_laws::<T>();
}

/// What `cmp_spec` says about equality and the reversed order.
proof fn lemma_cmp_spec_laws<T: Ord>()
    requires
        ordered_key::<T>(),
    ensures
        T::obeys_cmp_spec(),
        forall|a: T, b: T| #![trigger key_lt(a, b)] key_lt(a, b) ==> a != b && !key_lt(b, a),
        forall|a: T, b: T, c: T| #![trigger key_lt(a, b), key_lt(b, c)]
            key_lt(a, b) && key_lt(b, c) ==> key_lt(a, c),
        forall|a: T, b: T| #![trigger a.cmp_spec(&b)]
            (a.cmp_spec(&b) == Ordering::Equal) == (a == b),
        forall|a: T, b: T| #![trigger a.cmp_spec(&b)]
            (a.cmp_spec(&b) == Ordering::Greater) == key_lt(b, a),
{
    reveal(vstd::laws_cmp::obeys_partial_cmp_spec_properties);
    reveal(vstd::laws_cmp::obeys_cmp_partial_ord);
    reveal(vstd::laws_cmp::obeys_cmp_ord);
    reveal(obeys_concrete_eq);
    assert forall|a: T, b: T| #![trigger a.cmp_spec(&b)]
        (a.cmp_spec(&b) == Ordering::Equal) == (a == b) by {
        assert(a.partial_cmp_spec(&b) == Some(a.cmp_spec(&b)));
    }
    assert forall|a: T, b: T| #![trigger a.cmp_spec(&b)]
        (a.cmp_spec(&b) == Ordering::Greater) == key_lt(b, a) by {
        assert(a.partial_cmp_spec(&b) == Some(a.cmp_spec(&b)));
        assert(b.partial_cmp_spec(&a) == Some(b.cmp_spec(&a)));
    }
    assert forall|a: T, b: T| #![trigger key_lt(a, b)] key_lt(a, b) implies a != b && !key_lt(b, a) by {
        assert(a.partial_cmp_spec(&b) == Some(a.cmp_spec(&b)));
        assert(b.partial_cmp_spec(&a) == Some(b.cmp_spec(&a)));
        assert(a.partial_cmp_spec(&a) == Some(a.cmp_spec(&a)));
    }
    assert forall|a: T, b: T, c: T| #![trigger key_lt(a, b), key_lt(b, c)]
        key_lt(a, b) && key_lt(b, c) implies key_lt(a, c) by {
        assert(a.partial_cmp_spec(&b) == Some(a.cmp_spec(&b)));
        assert(b.partial_cmp_spec(&c) == Some(b.cmp_spec(&c)));
        assert(a.partial_cmp_spec(&c) == Some(a.cmp_spec(&c)));
    }
}

/// Outcome of comparing two keys.
#[derive(Clone, Copy, PartialEq, Eq, Debug)]
pub enum KeyOrder {
    Less,
    Equal,
    Greater,
}

/// Compares two keys with their `Ord` implementation.
pub fn compare_keys<T: Ord>(a: &T, b: &T) -> (r: KeyOrder)
    requires
        ordered_key::<T>(),
    ensures
        r == KeyOrder::Less <==> key_lt(*a, *b),
        r == KeyOrder::Equal <==> *a == *b,
        r == KeyOrder::Greater <==> key_lt(*b, *a),
{
    proof {
        lemma_cmp_spec_laws::<T>();
    }
    match a.cmp(b) {
        Ordering::Less => KeyOrder::Less,
        Ordering::Equal => KeyOrder::Equal,
        Ordering::Greater => KeyOrder::Greater,
    }
}

} // verus!
