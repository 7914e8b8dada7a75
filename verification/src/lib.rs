//! Search for a needle in a haystack of arbitrary elements, by one of three
//! interchangeable matchers, and replacement of every occurrence found.
//!
//! Every search reports the index of the leftmost occurrence of the needle,
//! or nothing where the needle does not occur; `occurrence` says what that
//! means, and the three matchers `simple`, `kmp` and `raita` all owe it.

pub mod element;
pub mod kmp;
pub mod occurrence;
pub mod raita;
pub mod replace;
pub mod simple;
pub mod span;

use crate::element::{clone_is_exact, eq_is_exact, order_is_lawful};
use crate::occurrence::{is_search_result, occurs};
use crate::replace::replaced;
use vstd::prelude::*;
use vstd::string::StringSliceAdditionalSpecFns;

verus! {

/// The matcher that makes a search.
#[derive(Debug, Copy, Clone, PartialEq, Eq, PartialOrd, Ord, Hash, Structural)]
pub enum Algorithm {
    /// The Knuth-Morris-Pratt matcher.
    KMP,
    /// The Raita matcher.
    Raita,
    /// The naive matcher.
    Simple,
}

impl Algorithm {
    /// The index of the leftmost occurrence of `needle` in `haystack`, by
    /// the matcher that `self` names. The result does not depend on the
    /// matcher. Only the Raita matcher orders the elements.
    pub fn slice_find<T: PartialEq + Ord>(&self, haystack: &[T], needle: &[T]) -> (found: Option<
        usize,
    >)
        requires
            eq_is_exact::<T>(),
            self is Raita ==> order_is_lawful::<T>(),
        ensures
            is_search_result(haystack@, needle@, found),
    {
        match self {
            Self::KMP => kmp::slice_find(haystack, needle),
            Self::Raita => raita::slice_find(haystack, needle),
            Self::Simple => simple::slice_find(haystack, needle),
        }
    }

    /// Whether `needle` occurs in `haystack`, by the matcher that `self`
    /// names.
    pub fn slice_contains<T: PartialEq + Ord>(&self, haystack: &[T], needle: &[T]) -> (found: bool)
        requires
            eq_is_exact::<T>(),
            self is Raita ==> order_is_lawful::<T>(),
        ensures
            found == occurs(haystack@, needle@),
    {
        self.slice_find(haystack, needle).is_some()
    }
}

/// The index of the leftmost occurrence of `needle` in `haystack`, by the
/// matcher `algo`.
pub fn slice_find<T: PartialEq + Ord>(algo: Algorithm, haystack: &[T], needle: &[T]) -> (found:
    Option<usize>)
    requires
        eq_is_exact::<T>(),
        algo is Raita ==> order_is_lawful::<T>(),
    ensures
        is_search_result(haystack@, needle@, found),
{
    algo.slice_find(haystack, needle)
}

/// Whether `needle` occurs in `haystack`, by the matcher `algo`.
pub fn slice_contains<T: PartialEq + Ord>(algo: Algorithm, haystack: &[T], needle: &[T]) -> (found:
    bool)
    requires
        eq_is_exact::<T>(),
        algo is Raita ==> order_is_lawful::<T>(),
    ensures
        found == occurs(haystack@, needle@),
{
    algo.slice_contains(haystack, needle)
}

/// A container that holds its elements in one run, in order: a haystack or
/// a needle.
pub trait Sequence<T> {
    /// The elements, in order.
    spec fn elements(&self) -> Seq<T>;

    /// The elements as a slice.
    fn as_elements(&self) -> (elements: &[T])
        ensures
            elements@ == self.elements(),
    ;
}

impl<T> Sequence<T> for Vec<T> {
    open spec fn elements(&self) -> Seq<T> {
        self@
    }

    fn as_elements(&self) -> (elements: &[T]) {
        self.as_slice()
    }
}

impl<T> Sequence<T> for [T] {
    open spec fn elements(&self) -> Seq<T> {
        self@
    }

    fn as_elements(&self) -> (elements: &[T]) {
        self
    }
}

impl<T, const N: usize> Sequence<T> for [T; N] {
    open spec fn elements(&self) -> Seq<T> {
        self@
    }

    fn as_elements(&self) -> (elements: &[T]) {
        self.as_slice()
    }
}

/// A string is the sequence of its bytes.
impl Sequence<u8> for str {
    open spec fn elements(&self) -> Seq<u8> {
        self.spec_bytes()
    }

    fn as_elements(&self) -> (elements: &[u8]) {
        self.as_bytes()
    }
}

impl<T, S: Sequence<T> + ?Sized> Sequence<T> for &S {
    open spec fn elements(&self) -> Seq<T> {
        (**self).elements()
    }

    fn as_elements(&self) -> (elements: &[T]) {
        (**self).as_elements()
    }
}

/// Search in a container of elements; where no matcher is chosen, the
/// Knuth-Morris-Pratt matcher makes it.
pub trait SliceFind<T: PartialEq>: Sequence<T> {
    /// The index of the leftmost occurrence of `needle` in `self`.
    fn find(&self, needle: impl Sequence<T>) -> (found: Option<usize>)
        requires
            eq_is_exact::<T>(),
        ensures
            is_search_result(self.elements(), needle.elements(), found),
    {
        kmp::slice_find(self.as_elements(), needle.as_elements())
    }

    /// Whether `needle` occurs in `self`.
    fn contains(&self, needle: impl Sequence<T>) -> (found: bool)
        requires
            eq_is_exact::<T>(),
        ensures
            found == occurs(self.elements(), needle.elements()),
    {
        self.find(needle).is_some()
    }
}

impl<T: PartialEq> SliceFind<T> for Vec<T> {

}

impl<T: PartialEq> SliceFind<T> for [T] {

}

impl<T: PartialEq, const N: usize> SliceFind<T> for [T; N] {

}

/// Replacement in a container of elements.
pub trait SliceReplace<T: PartialEq + Clone>: SliceFind<T> {
    /// `self` with every occurrence of `old` replaced by `new`, as a new
    /// vector. With an empty `old` and a `new` that is not empty the
    /// replacement would never end: that input is left out.
    fn replace(&self, old: impl Sequence<T>, new: impl Sequence<T>) -> (result: Vec<T>)
        requires
            eq_is_exact::<T>(),
            clone_is_exact::<T>(),
            old.elements().len() == 0 ==> new.elements().len() == 0,
        ensures
            result@ == replaced(self.elements(), old.elements(), new.elements()),
            old.elements() == new.elements() ==> result@ == self.elements(),
    {
        replace::slice_replace(self.as_elements(), old.as_elements(), new.as_elements())
    }
}

impl<T: PartialEq + Clone> SliceReplace<T> for Vec<T> {

}

impl<T: PartialEq + Clone> SliceReplace<T> for [T] {

}

impl<T: PartialEq + Clone, const N: usize> SliceReplace<T> for [T; N] {

}

} // verus!
