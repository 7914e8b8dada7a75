//! Comparisons of elements and of spans of them, and the searches that are
//! settled without any scanning.

use crate::element::{eq_is_exact, lemma_eq_is_exact};
use crate::occurrence::{is_search_result, lemma_occurs_at_elementwise, occurs_at};
use vstd::prelude::*;

verus! {

/// Whether two elements are the same.
pub fn same<T: PartialEq>(a: &T, b: &T) -> (equal: bool)
    requires
        eq_is_exact::<T>(),
    ensures
        equal == (*a == *b),
{
    proof {
        lemma_eq_is_exact::<T>();
    }
    *a == *b
}

/// The leftmost index at which `item` stands in `haystack`.
pub fn position<T: PartialEq>(haystack: &[T], item: &T) -> (found: Option<usize>)
    requires
        eq_is_exact::<T>(),
    ensures
        match found {
            Some(at) => {
                &&& at < haystack@.len()
                &&& haystack@[at as int] == *item
                &&& forall|before: int| 0 <= before < at ==> haystack@[before] != *item
            },
            None => forall|at: int| 0 <= at < haystack@.len() ==> haystack@[at] != *item,
        },
{
    let mut at: usize = 0;
    while at < haystack.len()
        invariant
            eq_is_exact::<T>(),
            at <= haystack@.len(),
            forall|before: int| 0 <= before < at ==> haystack@[before] != *item,
        decreases haystack@.len() - at,
    {
        if same(&haystack[at], item) {
            return Some(at);
        }
        at += 1;
    }
    None
}

/// Whether the `len` elements of `left` from `left_from` on equal the `len`
/// elements of `right` from `right_from` on.
pub fn spans_equal<T: PartialEq>(
    left: &[T],
    left_from: usize,
    right: &[T],
    right_from: usize,
    len: usize,
) -> (equal: bool)
    requires
        eq_is_exact::<T>(),
        left_from + len <= left@.len(),
        right_from + len <= right@.len(),
    ensures
        equal == (left@.subrange(left_from as int, left_from + len) == right@.subrange(
            right_from as int,
            right_from + len,
        )),
{
    let ghost left_span = left@.subrange(left_from as int, left_from + len);
    let ghost right_span = right@.subrange(right_from as int, right_from + len);
    let mut k: usize = 0;
    while k < len
        invariant
            eq_is_exact::<T>(),
            k <= len,
            left_from + len <= left.len(),
            right_from + len <= right.len(),
            left_span == left@.subrange(left_from as int, left_from + len),
            right_span == right@.subrange(right_from as int, right_from + len),
            forall|j: int| 0 <= j < k ==> left_span[j] == right_span[j],
        decreases len - k,
    {
        if !same(&left[left_from + k], &right[right_from + k]) {
            assert(left_span[k as int] != right_span[k as int]);
            return false;
        }
        k += 1;
    }
    assert(left_span =~= right_span);
    true
}

/// Whether the two slices hold the same elements in the same order.
pub fn slices_equal<T: PartialEq>(left: &[T], right: &[T]) -> (equal: bool)
    requires
        eq_is_exact::<T>(),
    ensures
        equal == (left@ == right@),
{
    if left.len() != right.len() {
        return false;
    }
    assert(left@.subrange(0, left@.len() as int) =~= left@);
    assert(right@.subrange(0, right@.len() as int) =~= right@);
    spans_equal(left, 0, right, 0, left.len())
}

/// The searches that are settled without scanning: an empty needle occurs
/// at index 0, a needle longer than the haystack occurs nowhere, a needle of
/// one element is looked up directly, and a needle as long as the haystack
/// occurs exactly if the two are equal. Every other search is left open.
pub fn find_without_scan<T: PartialEq>(haystack: &[T], needle: &[T]) -> (settled: Option<
    Option<usize>,
>)
    requires
        eq_is_exact::<T>(),
    ensures
        settled is None <==> 1 < needle@.len() < haystack@.len(),
        settled matches Some(found) ==> is_search_result(haystack@, needle@, found),
{
    let haystack_len = haystack.len();
    let needle_len = needle.len();
    proof {
        assert forall|at: int| #[trigger]
            occurs_at(haystack@, needle@, at) <==> {
                &&& 0 <= at
                &&& at + needle@.len() <= haystack@.len()
                &&& forall|k: int| 0 <= k < needle@.len() ==> haystack@[at + k] == needle@[k]
            } by {
            lemma_occurs_at_elementwise(haystack@, needle@, at);
        }
    }
    if needle_len == 0 {
        return Some(Some(0));
    }
    if needle_len > haystack_len {
        return Some(None);
    }
    if needle_len == 1 {
        return Some(position(haystack, &needle[0]));
    }
    if needle_len == haystack_len {
        assert(haystack@.subrange(0, needle@.len() as int) =~= haystack@);
        if slices_equal(haystack, needle) {
            return Some(Some(0));
        } else {
            return Some(None);
        }
    }
    None
}

} // verus!
