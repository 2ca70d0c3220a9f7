use vstd::prelude::*;

use crate::model::{
    after_alloc, align_up, all_free, free_run, is_alloc_result, is_first_fit, is_power_of_two,
    lemma_first_fit_is, lemma_first_fit_none, lemma_fit_in_run, lemma_none_at_end, lemma_power_of_two_room, lemma_skip_run, lemma_skip_used,
    mark, none_below, MAX_LEN,
};
use crate::BitAllocator;

verus! {

/// A first-fit allocator that keeps one flag per index.
pub struct LinearBitMap {
    size: usize,
    bitmap: Vec<bool>,
}

impl LinearBitMap {
    /// Allocates one index: the lowest free one.
    pub fn alloc_1(&mut self) -> (r: Option<usize>)
        requires
            old(self).wf(),
        ensures
            final(self).wf(),
            is_alloc_result(old(self).occupancy(), r, 1, 1),
            final(self).occupancy() == after_alloc(old(self).occupancy(), r, 1),
    {
        let ghost occ = self.bitmap@;
        let mut i: usize = 0;
        while i < self.size
            invariant
                self.wf(),
                self.bitmap@ == occ,
                occ == old(self).occupancy(),
                0 <= i <= self.size,
                forall|k: int| 0 <= k < i ==> occ[k],
            decreases self.size - i,
        {
            if !self.bitmap[i] {
                self.bitmap.set(i, true);
                proof {
                    assert forall|c: int| 0 <= c < i && c % 1 == 0 implies !free_run(occ, c, 1) by {
                        assert(occ[c]);
                    }
                    assert(is_first_fit(occ, i as int, 1, 1));
                    lemma_first_fit_is(occ, i as int, 1, 1);
                    assert(self.bitmap@ =~= mark(occ, i as int, 1, true));
                }
                return Some(i);
            }
            i += 1;
        }
        proof {
            assert forall|c: int| 0 <= c && c % 1 == 0 implies !free_run(occ, c, 1) by {
                if c < occ.len() {
                    assert(occ[c]);
                }
            }
            lemma_first_fit_none(occ, 1, 1);
        }
        None
    }

    /// The general search: the lowest multiple of `align` that starts `n` free indices.
    fn alloc_run(&mut self, n: usize, align: usize) -> (r: Option<usize>)
        requires
            old(self).wf(),
            0 < n <= old(self).occupancy().len(),
            is_power_of_two(align),
        ensures
            final(self).wf(),
            is_alloc_result(old(self).occupancy(), r, n as int, align as int),
            final(self).occupancy() == after_alloc(old(self).occupancy(), r, n as int),
    {
        let ghost occ = self.bitmap@;
        let size = self.size;
        let mut begin: usize = 0;
        while begin < size
            invariant
                self.wf(),
                self.bitmap@ == occ,
                occ == old(self).occupancy(),
                size == self.size,
                0 < n <= size,
                is_power_of_two(align),
                0 <= begin <= size,
                none_below(occ, begin as int, n as int, align as int),
            decreases size - begin,
        {
            let ghost start = begin;
            while begin < size && self.bitmap[begin]
                invariant
                    self.wf(),
                    self.bitmap@ == occ,
                    size == self.size,
                    start <= begin <= size,
                    forall|k: int| start <= k < begin ==> occ[k],
                decreases size - begin,
            {
                begin += 1;
            }
            proof {
                lemma_skip_used(occ, start as int, begin as int, n as int, align as int);
            }
            if begin >= size {
                proof {
                    lemma_none_at_end(occ, begin as int, n as int, align as int);
                }
                return None;
            }
            let mut end: usize = begin + 1;
            while end < size && !self.bitmap[end]
                invariant
                    self.wf(),
                    self.bitmap@ == occ,
                    size == self.size,
                    begin < end <= size,
                    forall|k: int| begin <= k < end ==> !occ[k],
                decreases size - end,
            {
                end += 1;
            }
            proof {
                lemma_power_of_two_room(align);
            }
            let aligned = align_up(begin, align);
            if aligned < end && end - aligned >= n {
                self.set_range(aligned, aligned + n, true);
                proof {
                    lemma_fit_in_run(occ, begin as int, end as int, aligned as int, n as int, align as int);
                    lemma_first_fit_is(occ, aligned as int, n as int, align as int);
                }
                return Some(aligned);
            }
            proof {
                lemma_skip_run(occ, begin as int, end as int, aligned as int, n as int, align as int);
            }
            begin = end;
        }
        proof {
            lemma_none_at_end(occ, begin as int, n as int, align as int);
        }
        None
    }

    /// Sets every flag of `[begin, end)` to `v`.
    fn set_range(&mut self, begin: usize, end: usize, v: bool)
        requires
            old(self).wf(),
            begin <= end <= old(self).occupancy().len(),
        ensures
            final(self).wf(),
            final(self).occupancy() == mark(old(self).occupancy(), begin as int, end - begin, v),
    {
        let ghost occ = self.bitmap@;
        let mut i: usize = begin;
        while i < end
            invariant
                self.wf(),
                self.size == old(self).size,
                occ == old(self).occupancy(),
                begin <= i <= end <= self.size,
                self.bitmap@ =~= mark(occ, begin as int, i - begin, v),
            decreases end - i,
        {
            self.bitmap.set(i, v);
            i += 1;
        }
    }
}

impl BitAllocator for LinearBitMap {
    closed spec fn occupancy(&self) -> Seq<bool> {
        self.bitmap@
    }

    closed spec fn wf(&self) -> bool {
        &&& 0 < self.size <= MAX_LEN
        &&& self.bitmap@.len() == self.size
    }

    fn new(size: usize) -> (r: Self) {
        let mut bitmap: Vec<bool> = Vec::new();
        let mut i: usize = 0;
        while i < size
            invariant
                i <= size,
                bitmap@ == all_free(i as nat),
            decreases size - i,
        {
            bitmap.push(false);
            i += 1;
            assert(bitmap@ =~= all_free(i as nat));
        }
        LinearBitMap { size, bitmap }
    }

    fn alloc_n(&mut self, n: usize) -> (r: Option<usize>) {
        if n == 1 {
            return self.alloc_1();
        }
        assert(1usize & 0usize == 0usize) by (bit_vector);
        self.alloc_run(n, 1)
    }

    fn alloc_aligned(&mut self, n: usize, align: usize) -> (r: Option<usize>) {
        self.alloc_run(n, align)
    }

    fn dealloc(&mut self, begin: usize, n: usize) {
        self.set_range(begin, begin + n, false);
    }
}

} // verus!
