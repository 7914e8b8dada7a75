//! What the library asks of an element type.
//!
//! The matchers compare elements with `==`, the Raita matcher also keys an
//! ordered map by them, and replacement clones them. What these operations
//! return is up to the element type, so every contract names the behaviour it
//! relies on. The integer types meet all three: vstd's
//! `laws_eq::group_laws_eq` and `laws_cmp::group_laws_cmp` prove the first
//! two of them, and the third follows from what vstd says of their `clone`.

use vstd::laws_cmp::obeys_cmp;
use vstd::laws_eq::obeys_concrete_eq;
use vstd::prelude::*;
use vstd::std_specs::cmp::PartialEqSpec;

verus! {

/// `==` on `T` holds of two elements exactly when they are the same value.
pub open spec fn eq_is_exact<T: PartialEq>() -> bool {
    obeys_concrete_eq::<T>()
}

/// The order on `T` is total and calls two elements equal exactly when `==`
/// does.
pub open spec fn order_is_lawful<T: Ord>() -> bool {
    obeys_cmp::<T>()
}

/// A clone of an element is that element.
pub open spec fn clone_is_exact<T: Clone>() -> bool {
    forall|a: T, b: T| #[trigger] cloned(a, b) ==> a == b
}

/// What `eq_is_exact` says of `==`, spelled out.
pub proof fn lemma_eq_is_exact<T: PartialEq>()
    requires
        eq_is_exact::<T>(),
    ensures
        T::obeys_eq_spec(),
        forall|a: T, b: T| #[trigger] a.eq_spec(&b) <==> a == b,
{
    reveal(obeys_concrete_eq);
}

} // verus!
