//! Replacement of every occurrence of one sequence by another, from left to
//! right, on top of the search.

use crate::element::{clone_is_exact, eq_is_exact};
use crate::kmp;
use crate::occurrence::{
    first_occurrence, is_leftmost_occurrence, is_search_result, lemma_first_occurrence,
    lemma_leftmost_occurrence_is_first, lemma_search_result_is_first_occurrence, occurs_at,
};
use crate::span::slices_equal;
use vstd::prelude::*;
use vstd::slice::slice_subrange;

verus! {

/// `haystack` with every occurrence of `old` replaced by `new`: the
/// leftmost occurrence is replaced, and the search goes on behind it, so
/// that occurrences do not overlap and what was put in is not searched
/// again. An empty `old` is replaced nowhere.
pub open spec fn replaced<T>(haystack: Seq<T>, old: Seq<T>, new: Seq<T>) -> Seq<T>
    decreases haystack.len(),
    via replaced_decreases::<T>
{
    match first_occurrence(haystack, old) {
        Some(at) if old.len() > 0 => haystack.subrange(0, at) + new + replaced(
            haystack.subrange(at + old.len(), haystack.len() as int),
            old,
            new,
        ),
        _ => haystack,
    }
}

#[via_fn]
proof fn replaced_decreases<T>(haystack: Seq<T>, old: Seq<T>, new: Seq<T>) {
    lemma_first_occurrence(haystack, old);
}

/// One step of a replacement: where `old` is not empty and its leftmost
/// occurrence in `haystack` is at `at`, the result is what stands before
/// `at`, then `new`, then the replacement of what stands behind the
/// occurrence.
pub proof fn lemma_replaced_step<T>(haystack: Seq<T>, old: Seq<T>, new: Seq<T>, at: int)
    requires
        old.len() > 0,
        first_occurrence(haystack, old) == Some(at),
    ensures
        is_leftmost_occurrence(haystack, old, at),
        replaced(haystack, old, new) == haystack.subrange(0, at) + new + replaced(
            haystack.subrange(at + old.len(), haystack.len() as int),
            old,
            new,
        ),
{
    lemma_first_occurrence(haystack, old);
}

/// Replacing a sequence by itself changes nothing.
pub proof fn lemma_replaced_by_itself<T>(haystack: Seq<T>, old: Seq<T>)
    ensures
        replaced(haystack, old, old) == haystack,
    decreases haystack.len(),
{
    if old.len() > 0 {
        match first_occurrence(haystack, old) {
            Some(at) => {
                lemma_replaced_step(haystack, old, old, at);
                let rest = haystack.subrange(at + old.len(), haystack.len() as int);
                lemma_replaced_by_itself(rest, old);
            },
            None => {},
        }
    }
}

/// A search for `new` in `replaced(haystack, old, new)` finds each place
/// where `new` was put, and finds it before any other occurrence of `new`;
/// behind the last such place, and in a haystack where nothing was
/// replaced, `new` does not occur.
pub open spec fn replacement_is_found_again<T>(haystack: Seq<T>, old: Seq<T>, new: Seq<T>) -> bool
    decreases haystack.len(),
    via replacement_is_found_again_decreases::<T>
{
    match first_occurrence(haystack, old) {
        Some(at) if old.len() > 0 => {
            &&& first_occurrence(replaced(haystack, old, new), new) == Some(at)
            &&& replacement_is_found_again(
                haystack.subrange(at + old.len(), haystack.len() as int),
                old,
                new,
            )
        },
        _ => first_occurrence(haystack, new) is None,
    }
}

#[via_fn]
proof fn replacement_is_found_again_decreases<T>(haystack: Seq<T>, old: Seq<T>, new: Seq<T>) {
    lemma_first_occurrence(haystack, old);
}

/// Replacing by nothing makes a sequence no longer.
proof fn lemma_replaced_by_nothing_is_no_longer<T>(haystack: Seq<T>, old: Seq<T>)
    ensures
        replaced(haystack, old, Seq::empty()).len() <= haystack.len(),
    decreases haystack.len(),
{
    match first_occurrence(haystack, old) {
        Some(at) if old.len() > 0 => {
            lemma_replaced_step(haystack, old, Seq::empty(), at);
            lemma_replaced_by_nothing_is_no_longer(
                haystack.subrange(at + old.len(), haystack.len() as int),
                old,
            );
        },
        _ => {},
    }
}

/// Replacing `old` by `new` and then `new` by `old` gives the haystack
/// back exactly if the second replacement finds what the first one put in;
/// `new` is taken not to be empty.
///
/// That neither of `old` and `new` occurs in the other is not enough for
/// the haystack to come back: in `abx` with `x` replaced by `aba`, which
/// gives `ababa`, the leftmost `aba` begins before the place of the
/// replacement, and replacing back gives `xba`.
pub proof fn lemma_replaced_and_back<T>(haystack: Seq<T>, old: Seq<T>, new: Seq<T>)
    requires
        new.len() > 0,
    ensures
        replaced(replaced(haystack, old, new), new, old) == haystack
            <==> replacement_is_found_again(haystack, old, new),
    decreases haystack.len(),
{
    let there = replaced(haystack, old, new);
    let back = replaced(there, new, old);
    lemma_first_occurrence(haystack, old);
    lemma_first_occurrence(there, new);
    match first_occurrence(haystack, old) {
        Some(at) if old.len() > 0 => {
            let rest = haystack.subrange(at + old.len(), haystack.len() as int);
            let rest_there = replaced(rest, old, new);
            let rest_back = replaced(rest_there, new, old);
            lemma_replaced_step(haystack, old, new, at);
            lemma_replaced_and_back(rest, old, new);
            // `new` stands at `at`, so the search back finds it there or
            // before.
            assert(there.subrange(at, at + new.len()) =~= new);
            assert(occurs_at(there, new, at));
            let again = first_occurrence(there, new)->Some_0;
            lemma_replaced_step(there, new, old, again);
            if again < at && back == haystack {
                // `old` would stand before its leftmost occurrence.
                assert(haystack.subrange(again, again + old.len()) =~= old);
                assert(occurs_at(haystack, old, again));
            }
            if again == at {
                // The two begin alike, and differ by what follows `old`.
                assert(there.subrange(at + new.len(), there.len() as int) =~= rest_there);
                assert(back =~= haystack.subrange(0, at) + old + rest_back);
                assert(haystack =~= haystack.subrange(0, at) + old + rest);
                if back == haystack {
                    assert forall|k: int| 0 <= k < rest.len() implies rest_back[k] == rest[k] by {
                        assert(back[at + old.len() + k] == rest_back[k]);
                        assert(haystack[at + old.len() + k] == rest[k]);
                    }
                    assert(rest_back =~= rest);
                }
            }
        },
        _ => {
            // Nothing was replaced: the haystack comes back exactly if
            // `new` does not occur in it.
            if let Some(again) = first_occurrence(haystack, new) {
                lemma_replaced_step(haystack, new, old, again);
                if back == haystack {
                    if old.len() > 0 {
                        assert(haystack.subrange(again, again + old.len()) =~= old);
                        assert(occurs_at(haystack, old, again));
                    } else {
                        assert(old =~= Seq::empty());
                        lemma_replaced_by_nothing_is_no_longer(
                            haystack.subrange(again + new.len(), haystack.len() as int),
                            new,
                        );
                    }
                }
            }
        },
    }
}

/// No element of `new` stands anywhere in `haystack`.
pub open spec fn shares_no_element<T>(haystack: Seq<T>, new: Seq<T>) -> bool {
    forall|i: int, j: int| 0 <= i < haystack.len() && 0 <= j < new.len() ==> haystack[i] != new[j]
}

/// Where no element of `new` stands anywhere in `haystack`, and `new` is
/// not empty, a search for `new` finds exactly what a replacement put in.
pub proof fn lemma_foreign_replacement_is_found_again<T>(
    haystack: Seq<T>,
    old: Seq<T>,
    new: Seq<T>,
)
    requires
        new.len() > 0,
        shares_no_element(haystack, new),
    ensures
        replacement_is_found_again(haystack, old, new),
    decreases haystack.len(),
{
    match first_occurrence(haystack, old) {
        Some(at) if old.len() > 0 => {
            lemma_replaced_step(haystack, old, new, at);
            let rest = haystack.subrange(at + old.len(), haystack.len() as int);
            let there = replaced(haystack, old, new);
            lemma_foreign_replacement_is_found_again(rest, old, new);
            assert(there.subrange(at, at + new.len()) =~= new);
            assert forall|before: int| before < at implies !occurs_at(there, new, before) by {
                if occurs_at(there, new, before) {
                    assert(there.subrange(before, before + new.len())[0] == new[0]);
                }
            }
            lemma_leftmost_occurrence_is_first(there, new, at);
        },
        _ => {
            lemma_first_occurrence(haystack, new);
            if let Some(at) = first_occurrence(haystack, new) {
                assert(haystack.subrange(at, at + new.len())[0] == new[0]);
            }
        },
    }
}

/// Replacing `old` by a `new` made of elements that stand nowhere in the
/// haystack, and then `new` by `old`, gives the haystack back.
pub proof fn lemma_replaced_by_foreign_and_back<T>(haystack: Seq<T>, old: Seq<T>, new: Seq<T>)
    requires
        new.len() > 0,
        shares_no_element(haystack, new),
    ensures
        replaced(replaced(haystack, old, new), new, old) == haystack,
{
    lemma_foreign_replacement_is_found_again(haystack, old, new);
    lemma_replaced_and_back(haystack, old, new);
}

/// A vector of clones of `items`.
fn copy_of<T: Clone>(items: &[T]) -> (copy: Vec<T>)
    requires
        clone_is_exact::<T>(),
    ensures
        copy@ == items@,
{
    let mut copy: Vec<T> = Vec::with_capacity(items.len());
    let mut i: usize = 0;
    while i < items.len()
        invariant
            clone_is_exact::<T>(),
            i <= items.len(),
            copy@ == items@.subrange(0, i as int),
        decreases items.len() - i,
    {
        let item = items[i].clone();
        assert(cloned(items@[i as int], item));
        copy.push(item);
        i += 1;
    }
    copy
}

/// Clones of `items`, appended to `target`.
fn append<T: Clone>(target: &mut Vec<T>, items: &[T], from: usize, to: usize)
    requires
        clone_is_exact::<T>(),
        from <= to <= items@.len(),
    ensures
        final(target)@ == old(target)@ + items@.subrange(from as int, to as int),
{
    let mut i: usize = from;
    while i < to
        invariant
            clone_is_exact::<T>(),
            from <= i <= to <= items.len(),
            target@ == old(target)@ + items@.subrange(from as int, i as int),
        decreases to - i,
    {
        let item = items[i].clone();
        assert(cloned(items@[i as int], item));
        target.push(item);
        i += 1;
    }
}

/// Clones of `new`, written over the elements of `this` from `at` on.
fn overwrite<T: Clone>(this: &mut Vec<T>, at: usize, new: &[T])
    requires
        clone_is_exact::<T>(),
        at + new@.len() <= old(this)@.len(),
    ensures
        final(this)@ == old(this)@.subrange(0, at as int) + new@ + old(this)@.subrange(
            at + new@.len(),
            old(this)@.len() as int,
        ),
{
    let mut k: usize = 0;
    while k < new.len()
        invariant
            clone_is_exact::<T>(),
            k <= new.len(),
            at + new.len() <= this.len(),
            this@.len() == old(this)@.len(),
            this@ == old(this)@.subrange(0, at as int) + new@.subrange(0, k as int) + old(
                this,
            )@.subrange(at + k, old(this)@.len() as int),
        decreases new.len() - k,
    {
        let item = new[k].clone();
        assert(cloned(new@[k as int], item));
        this[at + k] = item;
        k += 1;
    }
}

/// A new vector: what stands in `this` before `at`, then `new`, then what
/// stands in `this` from `at + cut` on.
fn spliced<T: Clone>(this: &[T], at: usize, cut: usize, new: &[T]) -> (rebuilt: Vec<T>)
    requires
        clone_is_exact::<T>(),
        at + cut <= this.len(),
    ensures
        rebuilt@ == this@.subrange(0, at as int) + new@ + this@.subrange(
            at + cut,
            this@.len() as int,
        ),
{
    let mut rebuilt: Vec<T> = Vec::new();
    append(&mut rebuilt, this, 0, at);
    append(&mut rebuilt, new, 0, new.len());
    append(&mut rebuilt, this, at + cut, this.len());
    rebuilt
}

/// `haystack` with every occurrence of `old` replaced by `new`.
///
/// A copy of the haystack is searched for `old` from left to right, each
/// search starting behind the replacement made last. Where `new` is as long
/// as `old` it is written over the occurrence in place; otherwise the copy
/// is rebuilt from what stands before the occurrence, `new`, and what
/// stands behind it.
///
/// An empty `old` occurs at every index, so with an empty `old` and a
/// `new` that is not empty the replacement would never end: that input is
/// left out.
pub fn slice_replace<T: PartialEq + Clone>(haystack: &[T], old: &[T], new: &[T]) -> (result: Vec<T>)
    requires
        eq_is_exact::<T>(),
        clone_is_exact::<T>(),
        old@.len() == 0 ==> new@.len() == 0,
    ensures
        result@ == replaced(haystack@, old@, new@),
        old@ == new@ ==> result@ == haystack@,
{
    let mut this = copy_of(haystack);
    if slices_equal(old, new) {
        proof {
            lemma_replaced_by_itself(haystack@, old@);
        }
        return this;
    }
    assert(0 < old@.len()) by {
        if old@.len() == 0 {
            assert(old@ =~= new@);
        }
    }
    let old_len = old.len();
    let new_len = new.len();

    let mut start: usize = 0;
    let mut maybe_pos = kmp::slice_find(slice_subrange(this.as_slice(), start, this.len()), old);
    assert(this@ =~= this@.subrange(0, 0) + this@.subrange(0, this@.len() as int));
    while maybe_pos.is_some()
        invariant
            eq_is_exact::<T>(),
            clone_is_exact::<T>(),
            old_len == old@.len(),
            new_len == new@.len(),
            0 < old_len,
            start <= this.len(),
            is_search_result(this@.subrange(start as int, this@.len() as int), old@, maybe_pos),
            replaced(haystack@, old@, new@) == this@.subrange(0, start as int) + replaced(
                this@.subrange(start as int, this@.len() as int),
                old@,
                new@,
            ),
        decreases this.len() - start,
    {
        let pos = maybe_pos.unwrap();
        let ghost before = this@;
        let ghost part = before.subrange(start as int, before.len() as int);
        proof {
            lemma_search_result_is_first_occurrence(part, old@, maybe_pos);
        }
        if new_len == old_len {
            overwrite(&mut this, start + pos, new);
        } else {
            this = spliced(this.as_slice(), start + pos, old_len, new);
        }
        let ghost rest = part.subrange(pos + old_len, part.len() as int);
        assert(start + pos + new_len <= this.len());
        start = start + pos + new_len;
        assert(this@.subrange(start as int, this@.len() as int) =~= rest);
        maybe_pos = kmp::slice_find(slice_subrange(this.as_slice(), start, this.len()), old);
    }
    proof {
        let part = this@.subrange(start as int, this@.len() as int);
        lemma_search_result_is_first_occurrence(part, old@, maybe_pos);
    }
    this
}

} // verus!
