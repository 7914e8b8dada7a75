//! The Knuth-Morris-Pratt matcher: a failure table over the needle lets the
//! haystack be read once, from left to right, without ever stepping back.

use crate::element::eq_is_exact;
use crate::occurrence::{is_search_result, lemma_occurs_at_elementwise, occurs, occurs_at};
use crate::span::{find_without_scan, same};
use vstd::prelude::*;

verus! {

/// The first `end` elements of `needle` have a border of length `len`: a
/// proper prefix of them that is also their suffix.
pub open spec fn is_border<T>(needle: Seq<T>, end: int, len: int) -> bool {
    &&& 0 <= len < end <= needle.len()
    &&& needle.subrange(0, len) == needle.subrange(end - len, end)
}

/// `len` is the length of the longest border of the first `end` elements of
/// `needle`.
pub open spec fn is_longest_border<T>(needle: Seq<T>, end: int, len: int) -> bool {
    &&& is_border(needle, end, len)
    &&& forall|longer: int| len < longer ==> !is_border(needle, end, longer)
}

/// `table` is the failure table of `needle`: one entry for each position,
/// and the entry at `i` is the length of the longest border of the needle's
/// elements up to and including the one at `i`.
pub open spec fn is_failure_table<T>(needle: Seq<T>, table: Seq<usize>) -> bool {
    &&& table.len() == needle.len()
    &&& forall|i: int|
        0 <= i < table.len() ==> is_longest_border(needle, i + 1, #[trigger] table[i] as int)
}

/// The first `len` elements of `needle` are the last `len` of the first
/// `end` elements of `text`.
spec fn prefix_ends_at<T>(text: Seq<T>, needle: Seq<T>, end: int, len: int) -> bool {
    &&& 0 <= len <= end <= text.len()
    &&& len <= needle.len()
    &&& forall|k: int| 0 <= k < len ==> #[trigger] needle[k] == text[end - len + k]
}

/// `len` is the greatest length under `limit` of a prefix of `needle` that
/// ends at `end` in `text`.
spec fn is_longest_under<T>(text: Seq<T>, needle: Seq<T>, end: int, len: int, limit: int) -> bool {
    &&& prefix_ends_at(text, needle, end, len)
    &&& len < limit
    &&& forall|longer: int| len < longer < limit ==> !prefix_ends_at(text, needle, end, longer)
}

/// The entries of `table` are the longest borders of the prefixes of
/// `needle` that they stand for.
spec fn is_partial_table<T>(needle: Seq<T>, table: Seq<usize>) -> bool {
    &&& table.len() <= needle.len()
    &&& forall|i: int|
        0 <= i < table.len() ==> is_longest_border(needle, i + 1, #[trigger] table[i] as int)
}

/// A border is a prefix of the needle that ends, inside the needle, before
/// its own end.
proof fn lemma_border_is_prefix<T>(needle: Seq<T>, end: int, len: int)
    ensures
        is_border(needle, end, len) <==> len < end && prefix_ends_at(needle, needle, end, len),
{
    if 0 <= len < end <= needle.len() {
        let head = needle.subrange(0, len);
        let tail = needle.subrange(end - len, end);
        if head == tail {
            assert forall|k: int| 0 <= k < len implies #[trigger] needle[k] == needle[end - len
                + k] by {
                assert(head[k] == tail[k]);
            }
        }
        if prefix_ends_at(needle, needle, end, len) {
            assert(head =~= tail);
        }
    }
}

/// The longest border, in terms of prefixes that end inside the needle.
proof fn lemma_longest_border_is_longest_under<T>(needle: Seq<T>, end: int, len: int)
    ensures
        is_longest_border(needle, end, len) <==> is_longest_under(needle, needle, end, len, end),
{
    assert forall|longer: int|
        #![trigger is_border(needle, end, longer)]
        #![trigger prefix_ends_at(needle, needle, end, longer)]
        is_border(needle, end, longer) <==> longer < end && prefix_ends_at(
            needle,
            needle,
            end,
            longer,
        ) by {
        lemma_border_is_prefix(needle, end, longer);
    }
}

/// An occurrence is the whole needle ending in the haystack.
proof fn lemma_occurrence_is_prefix<T>(haystack: Seq<T>, needle: Seq<T>, at: int)
    ensures
        occurs_at(haystack, needle, at) <==> 0 <= at && prefix_ends_at(
            haystack,
            needle,
            at + needle.len(),
            needle.len() as int,
        ),
{
    lemma_occurs_at_elementwise(haystack, needle, at);
}

/// The cursor after one more element of the text: from the longest prefix
/// of the needle that ends before `item`, the longest that ends after it.
/// While `item` does not continue the prefix at hand, the table names the
/// next shorter prefix to try.
fn advance<T: PartialEq>(
    needle: &[T],
    table: &Vec<usize>,
    cursor: usize,
    item: &T,
    Ghost(text): Ghost<Seq<T>>,
    Ghost(end): Ghost<int>,
    Ghost(limit): Ghost<int>,
) -> (next: usize)
    requires
        eq_is_exact::<T>(),
        is_partial_table(needle@, table@),
        cursor <= table@.len(),
        limit <= needle@.len(),
        0 <= end < text.len(),
        text[end] == *item,
        is_longest_under(text, needle@, end, cursor as int, limit),
    ensures
        is_longest_under(text, needle@, end + 1, next as int, limit + 1),
{
    let mut j: usize = cursor;
    while j > 0 && !same(item, &needle[j])
        invariant
            eq_is_exact::<T>(),
            is_partial_table(needle@, table@),
            j <= cursor <= table@.len(),
            limit <= needle@.len(),
            0 <= end < text.len(),
            text[end] == *item,
            prefix_ends_at(text, needle@, end, j as int),
            j < limit,
            forall|longer: int|
                j < longer < limit && prefix_ends_at(text, needle@, end, longer) ==> needle@[longer]
                    != *item,
        decreases j,
    {
        let shorter = table[j - 1];
        proof {
            // A prefix that ends before `item` and is shorter than the one
            // at hand is a border of it: none lies between `shorter` and `j`.
            lemma_longest_border_is_longest_under(needle@, j as int, shorter as int);
            assert forall|longer: int|
                shorter < longer < limit && prefix_ends_at(
                    text,
                    needle@,
                    end,
                    longer,
                ) implies needle@[longer] != *item by {
                if longer < j {
                    assert(prefix_ends_at(needle@, needle@, j as int, longer));
                }
            }
        }
        j = shorter;
    }
    let next = if same(item, &needle[j]) {
        j + 1
    } else {
        j
    };
    proof {
        // A prefix that ends behind `item` is, without its last element, a
        // prefix that ends before `item` and that `item` continues.
        let after = end + 1;
        assert forall|longer: int| next < longer < limit + 1 implies !prefix_ends_at(
            text,
            needle@,
            after,
            longer,
        ) by {
            if prefix_ends_at(text, needle@, after, longer) {
                let before = longer - 1;
                assert(needle@[before] == text[end + 1 - longer + before]);
            }
        }
    }
    next
}

/// The failure table of `needle`, built in one pass from left to right.
pub fn failure_table<T: PartialEq>(needle: &[T]) -> (table: Vec<usize>)
    requires
        eq_is_exact::<T>(),
    ensures
        is_failure_table(needle@, table@),
{
    let needle_len = needle.len();
    let mut table: Vec<usize> = Vec::with_capacity(needle_len);
    if needle_len == 0 {
        return table;
    }
    table.push(0);
    proof {
        lemma_longest_border_is_longest_under(needle@, 1, 0);
    }
    let mut i: usize = 1;
    while i < needle_len
        invariant
            eq_is_exact::<T>(),
            needle_len == needle@.len(),
            1 <= i <= needle_len,
            table@.len() == i,
            is_partial_table(needle@, table@),
        decreases needle_len - i,
    {
        let cursor = table[i - 1];
        proof {
            lemma_longest_border_is_longest_under(needle@, i as int, cursor as int);
        }
        let next = advance(
            needle,
            &table,
            cursor,
            &needle[i],
            Ghost(needle@),
            Ghost(i as int),
            Ghost(i as int),
        );
        proof {
            lemma_longest_border_is_longest_under(needle@, i + 1, next as int);
        }
        table.push(next);
        i += 1;
    }
    table
}

/// The index of the leftmost occurrence of `needle` in `haystack`, by one
/// pass over the haystack that keeps, at each element, the longest prefix
/// of the needle that ends there.
pub fn slice_find<T: PartialEq>(haystack: &[T], needle: &[T]) -> (found: Option<usize>)
    requires
        eq_is_exact::<T>(),
    ensures
        is_search_result(haystack@, needle@, found),
{
    if let Some(found) = find_without_scan(haystack, needle) {
        return found;
    }
    let haystack_len = haystack.len();
    let needle_len = needle.len();
    let table = failure_table(needle);
    let mut needle_pos: usize = 0;
    let mut haystack_pos: usize = 0;
    while haystack_pos < haystack_len
        invariant
            eq_is_exact::<T>(),
            haystack_len == haystack@.len(),
            needle_len == needle@.len(),
            1 < needle_len,
            is_failure_table(needle@, table@),
            haystack_pos <= haystack_len,
            is_longest_under(
                haystack@,
                needle@,
                haystack_pos as int,
                needle_pos as int,
                needle_len as int,
            ),
            forall|end: int|
                end <= haystack_pos ==> !prefix_ends_at(haystack@, needle@, end, needle_len as int),
        decreases haystack_len - haystack_pos,
    {
        needle_pos = advance(
            needle,
            &table,
            needle_pos,
            &haystack[haystack_pos],
            Ghost(haystack@),
            Ghost(haystack_pos as int),
            Ghost(needle_len as int),
        );
        if needle_pos == needle_len {
            let at = haystack_pos + 1 - needle_len;
            proof {
                lemma_occurrence_is_prefix(haystack@, needle@, at as int);
                assert forall|before: int| before < at implies !occurs_at(
                    haystack@,
                    needle@,
                    before,
                ) by {
                    lemma_occurrence_is_prefix(haystack@, needle@, before);
                }
            }
            return Some(at);
        }
        haystack_pos += 1;
    }
    proof {
        assert forall|at: int| !occurs_at(haystack@, needle@, at) by {
            lemma_occurrence_is_prefix(haystack@, needle@, at);
        }
    }
    None
}

/// Whether `needle` occurs in `haystack`.
pub fn slice_contains<T: PartialEq>(haystack: &[T], needle: &[T]) -> (found: bool)
    requires
        eq_is_exact::<T>(),
    ensures
        found == occurs(haystack@, needle@),
{
    slice_find(haystack, needle).is_some()
}

} // verus!
