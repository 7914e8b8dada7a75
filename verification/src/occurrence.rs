//! The mathematical model of a search: where a needle occurs in a haystack,
//! and which occurrence is the leftmost one.

use vstd::prelude::*;

verus! {

/// `needle` occurs in `haystack` at index `at`: the span of the needle's
/// length that starts there lies inside the haystack and equals the needle.
pub open spec fn occurs_at<T>(haystack: Seq<T>, needle: Seq<T>, at: int) -> bool {
    &&& 0 <= at
    &&& at + needle.len() <= haystack.len()
    &&& haystack.subrange(at, at + needle.len()) == needle
}

/// `needle` occurs at `at`, and at no smaller index.
pub open spec fn is_leftmost_occurrence<T>(haystack: Seq<T>, needle: Seq<T>, at: int) -> bool {
    &&& occurs_at(haystack, needle, at)
    &&& forall|before: int| before < at ==> !occurs_at(haystack, needle, before)
}

/// Some contiguous span of `haystack` equals `needle`.
pub open spec fn occurs<T>(haystack: Seq<T>, needle: Seq<T>) -> bool {
    exists|at: int| occurs_at(haystack, needle, at)
}

/// `found` is what a search for `needle` in `haystack` owes: the index of the
/// leftmost occurrence, or nothing where the needle does not occur.
pub open spec fn is_search_result<T>(
    haystack: Seq<T>,
    needle: Seq<T>,
    found: Option<usize>,
) -> bool {
    match found {
        Some(at) => is_leftmost_occurrence(haystack, needle, at as int),
        None => !occurs(haystack, needle),
    }
}

/// The leftmost occurrence at or after `from`, found by trying each index in
/// turn.
pub open spec fn first_occurrence_from<T>(
    haystack: Seq<T>,
    needle: Seq<T>,
    from: int,
) -> Option<int>
    decreases haystack.len() + 1 - from,
{
    if from < 0 || from + needle.len() > haystack.len() {
        None
    } else if occurs_at(haystack, needle, from) {
        Some(from)
    } else {
        first_occurrence_from(haystack, needle, from + 1)
    }
}

/// The index of the leftmost occurrence of `needle` in `haystack`, if there
/// is one.
pub open spec fn first_occurrence<T>(haystack: Seq<T>, needle: Seq<T>) -> Option<int> {
    first_occurrence_from(haystack, needle, 0)
}

/// What a search hands back, as an index of the model.
pub open spec fn reported(found: Option<usize>) -> Option<int> {
    match found {
        Some(at) => Some(at as int),
        None => None,
    }
}

/// An occurrence, element by element.
pub proof fn lemma_occurs_at_elementwise<T>(haystack: Seq<T>, needle: Seq<T>, at: int)
    ensures
        occurs_at(haystack, needle, at) <==> {
            &&& 0 <= at
            &&& at + needle.len() <= haystack.len()
            &&& forall|k: int| 0 <= k < needle.len() ==> haystack[at + k] == needle[k]
        },
{
    if 0 <= at && at + needle.len() <= haystack.len() {
        let window = haystack.subrange(at, at + needle.len());
        if window == needle {
        }
        if forall|k: int| 0 <= k < needle.len() ==> haystack[at + k] == needle[k] {
            assert(window =~= needle);
        }
    }
}

/// What `first_occurrence_from` finds is an occurrence with none between
/// `from` and it; where it finds nothing, there is none from `from` on.
pub proof fn lemma_first_occurrence_from<T>(haystack: Seq<T>, needle: Seq<T>, from: int)
    requires
        0 <= from,
    ensures
        match first_occurrence_from(haystack, needle, from) {
            Some(at) => {
                &&& from <= at
                &&& occurs_at(haystack, needle, at)
                &&& forall|before: int| from <= before < at ==> !occurs_at(haystack, needle, before)
            },
            None => forall|at: int| from <= at ==> !occurs_at(haystack, needle, at),
        },
    decreases haystack.len() + 1 - from,
{
    if from + needle.len() <= haystack.len() && !occurs_at(haystack, needle, from) {
        lemma_first_occurrence_from(haystack, needle, from + 1);
    }
}

/// The model's leftmost occurrence is a leftmost occurrence, and where the
/// model finds none the needle does not occur.
pub proof fn lemma_first_occurrence<T>(haystack: Seq<T>, needle: Seq<T>)
    ensures
        match first_occurrence(haystack, needle) {
            Some(at) => is_leftmost_occurrence(haystack, needle, at),
            None => !occurs(haystack, needle),
        },
{
    lemma_first_occurrence_from(haystack, needle, 0);
}

/// A leftmost occurrence is what the model finds.
pub proof fn lemma_leftmost_occurrence_is_first<T>(haystack: Seq<T>, needle: Seq<T>, at: int)
    requires
        is_leftmost_occurrence(haystack, needle, at),
    ensures
        first_occurrence(haystack, needle) == Some(at),
{
    lemma_first_occurrence(haystack, needle);
    if first_occurrence(haystack, needle) is None {
    }
}

/// What a search owes is what the model finds.
pub proof fn lemma_search_result_is_first_occurrence<T>(
    haystack: Seq<T>,
    needle: Seq<T>,
    found: Option<usize>,
)
    requires
        is_search_result(haystack, needle, found),
    ensures
        reported(found) == first_occurrence(haystack, needle),
{
    lemma_first_occurrence(haystack, needle);
    match (found, first_occurrence(haystack, needle)) {
        (Some(at), None) => {
        },
        (None, Some(first)) => {
        },
        _ => {},
    }
}

/// Two searches for the same needle in the same haystack report the same,
/// whichever matcher made them: what a search owes leaves no choice.
pub proof fn lemma_search_results_agree<T>(
    haystack: Seq<T>,
    needle: Seq<T>,
    one: Option<usize>,
    other: Option<usize>,
)
    requires
        is_search_result(haystack, needle, one),
        is_search_result(haystack, needle, other),
    ensures
        one == other,
{
}

/// A search for the empty needle reports index 0, whatever the haystack.
pub proof fn lemma_empty_needle_is_found_first<T>(
    haystack: Seq<T>,
    needle: Seq<T>,
    found: Option<usize>,
)
    requires
        needle.len() == 0,
        is_search_result(haystack, needle, found),
    ensures
        found == Some(0usize),
{
    assert(haystack.subrange(0, 0) =~= needle);
    assert(occurs_at(haystack, needle, 0));
}

/// A search for a needle longer than the haystack reports nothing.
pub proof fn lemma_longer_needle_is_not_found<T>(
    haystack: Seq<T>,
    needle: Seq<T>,
    found: Option<usize>,
)
    requires
        needle.len() > haystack.len(),
        is_search_result(haystack, needle, found),
    ensures
        found is None,
{
}

/// A search for the haystack in itself reports index 0.
pub proof fn lemma_haystack_is_found_in_itself<T>(haystack: Seq<T>, found: Option<usize>)
    requires
        is_search_result(haystack, haystack, found),
    ensures
        found == Some(0usize),
{
    assert(haystack.subrange(0, haystack.len() as int) =~= haystack);
    assert(occurs_at(haystack, haystack, 0));
}

} // verus!
