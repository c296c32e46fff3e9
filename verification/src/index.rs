//! Elements and slices of a deque by index, counted from the front.
use core::ops::{Index, Range, RangeFrom, RangeFull, RangeTo};
use vstd::prelude::*;

use crate::ring_deque::RingDeque;

verus! {

impl<T> Index<usize> for RingDeque<T> {
    type Output = T;

    /// The element with the given number of elements before it.
    fn index(&self, index: usize) -> (output: &T)
        ensures
            *output == self@.items[index as int],
    {
        let all: &[T] = self.as_slice();
        &all[index]
    }
}

impl<T> vstd::std_specs::core::IndexSpecImpl<usize> for RingDeque<T> {
    open spec fn index_req(&self, index: &usize) -> bool {
        *index < self@.items.len()
    }
}

impl<T> Index<Range<usize>> for RingDeque<T> {
    type Output = [T];

    /// The elements of a range of indices.
    fn index(&self, index: Range<usize>) -> (output: &[T])
        ensures
            output@ == self@.items.subrange(index.start as int, index.end as int),
    {
        let all: &[T] = self.as_slice();
        &all[index]
    }
}

impl<T> vstd::std_specs::core::IndexSpecImpl<Range<usize>> for RingDeque<T> {
    open spec fn index_req(&self, index: &Range<usize>) -> bool {
        index.start <= index.end <= self@.items.len()
    }
}

/// `core::ops::RangeFull`, the range of all indices.
#[verifier::external_type_specification]
pub struct ExRangeFull(RangeFull);

/// `core::ops::RangeFrom`, a range of indices without an end.
#[verifier::external_type_specification]
#[verifier::reject_recursive_types(Idx)]
pub struct ExRangeFrom<Idx>(RangeFrom<Idx>);

/// `core::ops::RangeTo`, a range of indices without a start.
#[verifier::external_type_specification]
#[verifier::reject_recursive_types(Idx)]
pub struct ExRangeTo<Idx>(RangeTo<Idx>);

impl<T> Index<RangeFull> for RingDeque<T> {
    type Output = [T];

    /// All elements, from front to back.
    fn index(&self, _index: RangeFull) -> (output: &[T])
        ensures
            output@ == self@.items,
    {
        self.as_slice()
    }
}

impl<T> vstd::std_specs::core::IndexSpecImpl<RangeFull> for RingDeque<T> {
    open spec fn index_req(&self, index: &RangeFull) -> bool {
        true
    }
}

impl<T> Index<RangeFrom<usize>> for RingDeque<T> {
    type Output = [T];

    /// The elements from an index on.
    fn index(&self, index: RangeFrom<usize>) -> (output: &[T])
        ensures
            output@ == self@.items.skip(index.start as int),
    {
        let all: &[T] = self.as_slice();
        &all[index.start..all.len()]
    }
}

impl<T> vstd::std_specs::core::IndexSpecImpl<RangeFrom<usize>> for RingDeque<T> {
    open spec fn index_req(&self, index: &RangeFrom<usize>) -> bool {
        index.start <= self@.items.len()
    }
}

impl<T> Index<RangeTo<usize>> for RingDeque<T> {
    type Output = [T];

    /// The elements before an index.
    fn index(&self, index: RangeTo<usize>) -> (output: &[T])
        ensures
            output@ == self@.items.take(index.end as int),
    {
        let all: &[T] = self.as_slice();
        &all[0..index.end]
    }
}

impl<T> vstd::std_specs::core::IndexSpecImpl<RangeTo<usize>> for RingDeque<T> {
    open spec fn index_req(&self, index: &RangeTo<usize>) -> bool {
        index.end <= self@.items.len()
    }
}

/// Every element has an index, and every range within the deque can be taken.
pub proof fn law_indices_cover_the_deque<T>(deque: RingDeque<T>, i: usize, j: usize)
    requires
        i <= j <= deque@.items.len(),
    ensures
        i < deque@.items.len() ==> vstd::std_specs::core::IndexSpec::index_req(&deque, &i),
        vstd::std_specs::core::IndexSpec::index_req(&deque, &(Range { start: i, end: j })),
        vstd::std_specs::core::IndexSpec::index_req(&deque, &(RangeFrom { start: i })),
        vstd::std_specs::core::IndexSpec::index_req(&deque, &(RangeTo { end: j })),
        vstd::std_specs::core::IndexSpec::index_req(&deque, &RangeFull),
{
}

} // verus!
