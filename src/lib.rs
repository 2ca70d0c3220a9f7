use vstd::prelude::*;

pub mod bitalloc;
pub mod bytealloc;
pub mod laws;
pub mod model;
pub mod replay;

use crate::model::{after_alloc, all_free, is_alloc_result, is_power_of_two, mark, MAX_LEN};

verus! {

/// A first-fit allocator of contiguous indices in `[0, size)`.
///
/// Its state is its occupancy: one flag per index, `true` where the index is in use.
/// `dealloc` frees every index of the range it is given, whether or not that index
/// was in use: freeing a free index is allowed and changes nothing.
pub trait BitAllocator: Sized {
    /// One flag per index, `true` where the index is allocated.
    spec fn occupancy(&self) -> Seq<bool>;

    /// The internal representation is consistent.
    spec fn wf(&self) -> bool;

    /// An allocator of `size` indices, all free.
    fn new(size: usize) -> (r: Self)
        requires
            0 < size <= MAX_LEN,
        ensures
            r.wf(),
            r.occupancy() == all_free(size as nat),
    ;

    /// Allocates `n` consecutive indices at the lowest start where they are all free.
    fn alloc_n(&mut self, n: usize) -> (r: Option<usize>)
        requires
            old(self).wf(),
            0 < n <= old(self).occupancy().len(),
        ensures
            final(self).wf(),
            is_alloc_result(old(self).occupancy(), r, n as int, 1),
            final(self).occupancy() == after_alloc(old(self).occupancy(), r, n as int),
    ;

    /// Allocates `n` consecutive indices at the lowest multiple of `align` where they
    /// are all free.
    fn alloc_aligned(&mut self, n: usize, align: usize) -> (r: Option<usize>)
        requires
            old(self).wf(),
            0 < n <= old(self).occupancy().len(),
            is_power_of_two(align),
        ensures
            final(self).wf(),
            is_alloc_result(old(self).occupancy(), r, n as int, align as int),
            final(self).occupancy() == after_alloc(old(self).occupancy(), r, n as int),
    ;

    /// Frees the indices `[begin, begin + n)`.
    fn dealloc(&mut self, begin: usize, n: usize)
        requires
            old(self).wf(),
            begin + n <= old(self).occupancy().len(),
        ensures
            final(self).wf(),
            final(self).occupancy() == mark(old(self).occupancy(), begin as int, n as int, false),
    ;
}

} // verus!
