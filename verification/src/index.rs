//! Access by subscript: `c[position]`, `c[name]`, and the slices `c[a..b]`,
//! `c[..b]`, `c[a..]` and `c[..]`.

use vstd::prelude::*;
use vstd::slice::slice_subrange;
use std::ops::{Index, Range, RangeFrom, RangeFull, RangeTo};
use crate::container::NamedVec;
use crate::element::Named;
use crate::model;

verus! {

/// `std::ops::RangeTo`, the range `..end`, with its one public field.
#[verifier::external_type_specification]
#[verifier::reject_recursive_types(Idx)]
pub struct ExRangeTo<Idx>(RangeTo<Idx>);

/// `std::ops::RangeFrom`, the range `start..`, with its one public field.
#[verifier::external_type_specification]
#[verifier::reject_recursive_types(Idx)]
pub struct ExRangeFrom<Idx>(RangeFrom<Idx>);

/// `std::ops::RangeFull`, the range `..`, which holds nothing.
#[verifier::external_type_specification]
pub struct ExRangeFull(RangeFull);

impl<T: Named> Index<usize> for NamedVec<T> {
    type Output = T;

    /// The element at position `index`, which must be within bounds.
    fn index(&self, index: usize) -> (r: &T)
        ensures
            *r == self@[index as int],
    {
        &self.as_slice()[index]
    }
}

impl<T: Named> vstd::std_specs::core::IndexSpecImpl<usize> for NamedVec<T> {
    open spec fn index_req(&self, index: &usize) -> bool {
        *index < self@.len()
    }
}

impl<'a, T: Named> Index<&'a str> for NamedVec<T> {
    type Output = T;

    /// The element that bears the name `index`; there must be one.
    fn index(&self, index: &'a str) -> (r: &T)
        ensures
            Some(*r) == model::get(self@, crate::lookup::Lookup::Name(index)),
    {
        self.get(index).unwrap()
    }
}

impl<'a, T: Named> vstd::std_specs::core::IndexSpecImpl<&'a str> for NamedVec<T> {
    open spec fn index_req(&self, index: &&'a str) -> bool {
        self.wf() && model::has_name(self@, (*index)@)
    }
}

impl<T: Named> Index<Range<usize>> for NamedVec<T> {
    type Output = [T];

    /// The elements from position `index.start` up to, not including,
    /// `index.end`.
    fn index(&self, index: Range<usize>) -> (r: &[T])
        ensures
            r@ == self@.subrange(index.start as int, index.end as int),
    {
        slice_subrange(self.as_slice(), index.start, index.end)
    }
}

impl<T: Named> vstd::std_specs::core::IndexSpecImpl<Range<usize>> for NamedVec<T> {
    open spec fn index_req(&self, index: &Range<usize>) -> bool {
        index.start <= index.end <= self@.len()
    }
}

impl<T: Named> Index<RangeTo<usize>> for NamedVec<T> {
    type Output = [T];

    /// The elements before position `index.end`.
    fn index(&self, index: RangeTo<usize>) -> (r: &[T])
        ensures
            r@ == self@.take(index.end as int),
    {
        slice_subrange(self.as_slice(), 0, index.end)
    }
}

impl<T: Named> vstd::std_specs::core::IndexSpecImpl<RangeTo<usize>> for NamedVec<T> {
    open spec fn index_req(&self, index: &RangeTo<usize>) -> bool {
        index.end <= self@.len()
    }
}

impl<T: Named> Index<RangeFrom<usize>> for NamedVec<T> {
    type Output = [T];

    /// The elements from position `index.start` on.
    fn index(&self, index: RangeFrom<usize>) -> (r: &[T])
        ensures
            r@ == self@.skip(index.start as int),
    {
        slice_subrange(self.as_slice(), index.start, self.len())
    }
}

impl<T: Named> vstd::std_specs::core::IndexSpecImpl<RangeFrom<usize>> for NamedVec<T> {
    open spec fn index_req(&self, index: &RangeFrom<usize>) -> bool {
        index.start <= self@.len()
    }
}

impl<T: Named> Index<RangeFull> for NamedVec<T> {
    type Output = [T];

    /// All the elements.
    fn index(&self, _index: RangeFull) -> (r: &[T])
        ensures
            r@ == self@,
    {
        self.as_slice()
    }
}

impl<T: Named> vstd::std_specs::core::IndexSpecImpl<RangeFull> for NamedVec<T> {
    open spec fn index_req(&self, index: &RangeFull) -> bool {
        true
    }
}

} // verus!
