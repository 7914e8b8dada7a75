//! The naive matcher: every window of the haystack is compared with the
//! needle in turn.

use crate::element::eq_is_exact;
use crate::occurrence::{is_search_result, occurs, occurs_at};
use crate::span::{find_without_scan, same, spans_equal};
use vstd::prelude::*;

verus! {

/// The index of the leftmost occurrence of `needle` in `haystack`, by
/// sliding a window over the haystack: its first element is compared first,
/// and only where that agrees the whole window.
pub fn slice_find<T: PartialEq>(haystack: &[T], needle: &[T]) -> (found: Option<usize>)
    requires
        eq_is_exact::<T>(),
    ensures
        is_search_result(haystack@, needle@, found),
{
    if let Some(found) = find_without_scan(haystack, needle) {
        return found;
    }
    let needle_len = needle.len();
    let last_start = haystack.len() - needle_len;
    let mut pos: usize = 0;
    while pos <= last_start
        invariant
            eq_is_exact::<T>(),
            needle_len == needle@.len(),
            0 < needle_len,
            last_start + needle_len == haystack.len(),
            forall|before: int| before < pos ==> !occurs_at(haystack@, needle@, before),
        decreases last_start + 1 - pos,
    {
        if same(&haystack[pos], &needle[0]) {
            assert(needle@.subrange(0, needle_len as int) =~= needle@);
            if spans_equal(haystack, pos, needle, 0, needle_len) {
                return Some(pos);
            }
        }
        pos += 1;
    }
    None
}

/// Whether `needle` occurs in `haystack`.
pub fn slice_contains<T: PartialEq>(haystack: &[T], needle: &[T]) -> (found: bool)
    requires
        eq_is_exact::<T>(),
    ensures
        found == occurs(haystack@, needle@),
{
    slice_find(haystack, needle).is_some()
}

} // verus!
