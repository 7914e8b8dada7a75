//! The Raita matcher: a window is compared with the needle only where its
//! last, first and middle elements agree with the needle's, and the element
//! under the window's last position says how far the window may move.

use crate::element::{eq_is_exact, order_is_lawful};
use crate::occurrence::{is_search_result, lemma_occurs_at_elementwise, occurs, occurs_at};
use crate::span::{find_without_scan, same, spans_equal};
use std::collections::BTreeMap;
use vstd::prelude::*;

verus! {

/// The greatest index under `below` at which `item` stands in `needle`, or
/// -1 where it stands at none.
pub open spec fn last_index_below<T>(needle: Seq<T>, item: T, below: int) -> int
    decreases below,
{
    if below <= 0 {
        -1
    } else if needle[below - 1] == item {
        below - 1
    } else {
        last_index_below(needle, item, below - 1)
    }
}

/// How far the window moves when `item` stands under its last position: the
/// distance from the last place of `item` in the needle, its final position
/// set aside, to the needle's end; 1 where `item` has no such place.
pub open spec fn shift_for<T>(needle: Seq<T>, item: T) -> int {
    let last = last_index_below(needle, item, needle.len() - 1);
    if last < 0 {
        1
    } else {
        needle.len() - 1 - last
    }
}

/// `table` is the bad-character table of `needle`: it holds exactly the
/// elements that stand in the needle before its final position, each with
/// the distance from its last such place to the needle's end.
pub open spec fn is_bad_character_table<T>(needle: Seq<T>, table: Map<&T, usize>) -> bool {
    forall|item: &T|
        {
            &&& #[trigger] table.contains_key(item) <==> 0 <= last_index_below(
                needle,
                *item,
                needle.len() - 1,
            )
            &&& table.contains_key(item) ==> table[item] == shift_for(needle, *item)
        }
}

/// What `last_index_below` names is a place of `item` under `below`, and no
/// place of `item` lies between it and `below`.
proof fn lemma_last_index_below<T>(needle: Seq<T>, item: T, below: int)
    requires
        0 <= below <= needle.len(),
    ensures
        -1 <= last_index_below(needle, item, below) < below,
        0 <= last_index_below(needle, item, below) ==> needle[last_index_below(
            needle,
            item,
            below,
        )] == item,
        forall|later: int|
            0 <= later < below && last_index_below(needle, item, below) < later ==> needle[later]
                != item,
    decreases below,
{
    if below > 0 && needle[below - 1] != item {
        lemma_last_index_below(needle, item, below - 1);
    }
}

/// No occurrence starts at an index that a shift passes over.
proof fn lemma_shift_skips_no_occurrence<T>(
    haystack: Seq<T>,
    needle: Seq<T>,
    pos: int,
    skipped: int,
)
    requires
        0 < needle.len(),
        0 <= pos,
        pos + needle.len() <= haystack.len(),
        pos < skipped < pos + shift_for(needle, haystack[pos + needle.len() - 1]),
    ensures
        !occurs_at(haystack, needle, skipped),
{
    let item = haystack[pos + needle.len() - 1];
    let under = needle.len() - 1 - (skipped - pos);
    lemma_last_index_below(needle, item, needle.len() - 1);
    if occurs_at(haystack, needle, skipped) {
        assert(haystack[skipped + under] == needle[under]);
    }
}

/// A window is an occurrence exactly if its last element, its first element
/// and what lies between them are the needle's; its middle element is then
/// the needle's too.
proof fn lemma_occurrence_by_anchors<T>(haystack: Seq<T>, needle: Seq<T>, pos: int)
    requires
        2 <= needle.len(),
        0 <= pos,
        pos + needle.len() <= haystack.len(),
    ensures
        occurs_at(haystack, needle, pos) <==> {
            &&& haystack[pos + needle.len() - 1] == needle[needle.len() - 1]
            &&& haystack[pos] == needle[0]
            &&& haystack.subrange(pos + 1, pos + 1 + (needle.len() - 2)) == needle.subrange(
                1,
                1 + (needle.len() - 2),
            )
        },
        occurs_at(haystack, needle, pos) ==> haystack[pos + needle.len() as int / 2]
            == needle[needle.len() as int / 2],
{
    let window = haystack.subrange(pos + 1, pos + 1 + (needle.len() - 2));
    let body = needle.subrange(1, 1 + (needle.len() - 2));
    lemma_occurs_at_elementwise(haystack, needle, pos);
    if occurs_at(haystack, needle, pos) {
        assert(window =~= body);
    }
    if window == body {
        assert forall|k: int| 0 < k < needle.len() - 1 implies haystack[pos + k] == needle[k] by {
            assert(window[k - 1] == body[k - 1]);
        }
    }
}

/// The bad-character table of `needle`, filled from every position but the
/// last, from left to right, so that a later place of an element replaces
/// an earlier one.
pub fn bad_character_table<'a, T: Ord>(needle: &'a [T]) -> (table: BTreeMap<&'a T, usize>)
    requires
        eq_is_exact::<T>(),
        order_is_lawful::<T>(),
    ensures
        is_bad_character_table(needle@, table@),
{
    let mut table: BTreeMap<&'a T, usize> = BTreeMap::new();
    if needle.len() == 0 {
        return table;
    }
    let last = needle.len() - 1;
    let mut i: usize = 0;
    while i < last
        invariant
            order_is_lawful::<T>(),
            last + 1 == needle@.len(),
            i <= last,
            forall|item: &T|
                {
                    let place = last_index_below(needle@, *item, i as int);
                    &&& #[trigger] table@.contains_key(item) <==> 0 <= place
                    &&& table@.contains_key(item) ==> table@[item] == last - place
                },
        decreases last - i,
    {
        table.insert(&needle[i], last - i);
        i += 1;
    }
    table
}

/// How far the window moves when `item` stands under its last position.
pub fn shift<'a, T: Ord>(table: &BTreeMap<&'a T, usize>, item: &'a T) -> (distance: usize)
    requires
        eq_is_exact::<T>(),
        order_is_lawful::<T>(),
    ensures
        distance == if table@.contains_key(item) {
            table@[item]
        } else {
            1
        },
{
    match table.get(&item) {
        Some(distance) => *distance,
        None => 1,
    }
}

/// The index of the leftmost occurrence of `needle` in `haystack`, by
/// moving a window over the haystack. The window's last element is compared
/// first, then its first and its middle element, and only where all three
/// agree with the needle's the elements between the first and the last.
pub fn slice_find<T: Ord>(haystack: &[T], needle: &[T]) -> (found: Option<usize>)
    requires
        eq_is_exact::<T>(),
        order_is_lawful::<T>(),
    ensures
        is_search_result(haystack@, needle@, found),
{
    if let Some(found) = find_without_scan(haystack, needle) {
        return found;
    }
    let needle_len = needle.len();
    let last_start = haystack.len() - needle_len;
    let table = bad_character_table(needle);

    let first_item = &needle[0];
    let middle_item = &needle[needle_len / 2];
    let last_item = &needle[needle_len - 1];

    let mut pos: usize = 0;
    while pos <= last_start
        invariant
            eq_is_exact::<T>(),
            order_is_lawful::<T>(),
            needle_len == needle@.len(),
            1 < needle_len,
            last_start + needle_len == haystack.len(),
            is_bad_character_table(needle@, table@),
            *first_item == needle@[0],
            *middle_item == needle@[needle_len as int / 2],
            *last_item == needle@[needle_len - 1],
            forall|before: int| before < pos ==> !occurs_at(haystack@, needle@, before),
        decreases haystack.len() - pos,
    {
        let item = &haystack[pos + needle_len - 1];
        proof {
            lemma_occurrence_by_anchors(haystack@, needle@, pos as int);
        }
        if same(item, last_item) && same(&haystack[pos], first_item) && same(
            &haystack[pos + needle_len / 2],
            middle_item,
        ) && spans_equal(haystack, pos + 1, needle, 1, needle_len - 2) {
            return Some(pos);
        }
        let distance = shift(&table, item);
        proof {
            lemma_last_index_below(needle@, *item, needle_len - 1);
            assert forall|before: int| before < pos + distance implies !occurs_at(
                haystack@,
                needle@,
                before,
            ) by {
                if pos < before {
                    lemma_shift_skips_no_occurrence(haystack@, needle@, pos as int, before);
                }
            }
        }
        pos += distance;
    }
    None
}

/// Whether `needle` occurs in `haystack`.
pub fn slice_contains<T: Ord>(haystack: &[T], needle: &[T]) -> (found: bool)
    requires
        eq_is_exact::<T>(),
        order_is_lawful::<T>(),
    ensures
        found == occurs(haystack@, needle@),
{
    slice_find(haystack, needle).is_some()
}

} // verus!
