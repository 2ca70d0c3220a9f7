use vstd::prelude::*;

use crate::model::{
    after_alloc, align_up, all_free, free_run, is_align_up, is_alloc_result, is_first_fit,
    is_power_of_two, lemma_first_fit_is, lemma_fit_in_run, lemma_none_at_end, lemma_power_of_two_room, lemma_skip_run,
    lemma_skip_used, mark, none_below, MAX_LEN,
};
use crate::BitAllocator;

verus! {

/// The number of indices that one word of the bitmap holds.
pub const ELEM_WIDTH: usize = 64;

/// The number of words that `MAX_LEN` indices take.
pub const ELEM_CNT: usize = MAX_LEN / ELEM_WIDTH;

/// Bit `b` of `w` is set.
pub open spec fn bit_of(w: u64, b: int) -> bool {
    (w >> (b as u64)) & 1u64 == 1u64
}

/// `(word * ELEM_WIDTH + bit) / ELEM_WIDTH == word` and the remainder is `bit`.
proof fn lemma_split(word: int, bit: int)
    requires
        word >= 0,
        0 <= bit < 64,
    ensures
        (word * 64 + bit) / 64 == word,
        (word * 64 + bit) % 64 == bit,
{
    vstd::arithmetic::div_mod::lemma_fundamental_div_mod_converse(word * 64 + bit, 64, word, bit);
}

/// Every index is its word times the width plus its bit.
proof fn lemma_join(k: int)
    requires
        k >= 0,
    ensures
        k == (k / 64) * 64 + k % 64,
        0 <= k % 64 < 64,
        k / 64 >= 0,
{
    vstd::arithmetic::div_mod::lemma_fundamental_div_mod(k, 64);
}

proof fn lemma_set_bit(w: u64, b: u64, v: u64, j: u64)
    requires
        b < 64,
        j < 64,
        v <= 1,
    ensures
        ((((w & !(1u64 << b)) | (v << b)) >> j) & 1u64 == 1u64) == if j == b {
            v == 1
        } else {
            (w >> j) & 1u64 == 1u64
        },
{
    assert(((((w & !(1u64 << b)) | (v << b)) >> j) & 1u64 == 1u64) == if j == b {
        v == 1
    } else {
        (w >> j) & 1u64 == 1u64
    }) by (bit_vector)
        requires
            b < 64,
            j < 64,
            v <= 1,
    ;
}

proof fn lemma_zero_word(j: u64)
    requires
        j < 64,
    ensures
        !bit_of(0u64, j as int),
{
    assert((0u64 >> j) & 1u64 != 1u64) by (bit_vector);
}

/// A position in the bitmap: a word and a bit inside it.
#[derive(Clone, Copy, PartialEq, Eq, Structural, Debug)]
pub struct RawIndex {
    pub word: usize,
    pub bit: usize,
}

impl RawIndex {
    /// The flat index of this position.
    pub open spec fn pos(&self) -> int {
        self.word * 64 + self.bit
    }

    /// The bit lies inside its word and the flat index fits in a `usize`.
    pub open spec fn wf(&self) -> bool {
        self.bit < 64 && self.pos() <= usize::MAX
    }

    /// The first position.
    pub fn new() -> (r: Self)
        ensures
            r.wf(),
            r.pos() == 0,
    {
        RawIndex { word: 0, bit: 0 }
    }

    /// The last position that any bitmap can hold.
    pub fn max() -> (r: Self)
        ensures
            r.wf(),
            r.pos() == MAX_LEN - 1,
    {
        RawIndex { word: ELEM_CNT - 1, bit: ELEM_WIDTH - 1 }
    }

    pub fn to_int(&self) -> (r: usize)
        requires
            self.wf(),
        ensures
            r == self.pos(),
    {
        self.word * ELEM_WIDTH + self.bit
    }

    pub fn from_int(x: usize) -> (r: Self)
        ensures
            r.wf(),
            r.pos() == x,
    {
        proof {
            lemma_join(x as int);
        }
        RawIndex { word: x / ELEM_WIDTH, bit: x % ELEM_WIDTH }
    }

    /// The first position at or after this one whose flat index is a multiple of `alignment`.
    pub fn next_aligned(&self, alignment: usize) -> (r: Self)
        requires
            self.wf(),
            alignment > 0,
            self.pos() + alignment - 1 <= usize::MAX,
        ensures
            r.wf(),
            is_align_up(self.pos(), alignment as int, r.pos()),
    {
        Self::from_int(align_up(self.to_int(), alignment))
    }

    /// The position `rhs` indices further on.
    pub fn add(self, rhs: usize) -> (r: Self)
        requires
            self.wf(),
            self.pos() + rhs <= usize::MAX,
        ensures
            r.wf(),
            r.pos() == self.pos() + rhs,
    {
        let b = self.bit + rhs;
        proof {
            lemma_join(b as int);
        }
        RawIndex { word: self.word + b / ELEM_WIDTH, bit: b % ELEM_WIDTH }
    }

    /// Moves this position `rhs` indices further on.
    pub fn add_assign(&mut self, rhs: usize)
        requires
            old(self).wf(),
            old(self).pos() + rhs <= usize::MAX,
        ensures
            final(self).wf(),
            final(self).pos() == old(self).pos() + rhs,
    {
        self.bit = self.bit + rhs;
        proof {
            lemma_join(self.bit as int);
        }
        self.word = self.word + self.bit / ELEM_WIDTH;
        self.bit = self.bit % ELEM_WIDTH;
    }

    /// The number of indices from `rhs` to this position.
    pub fn sub(self, rhs: Self) -> (r: usize)
        requires
            self.wf(),
            rhs.wf(),
            rhs.pos() <= self.pos(),
        ensures
            r == self.pos() - rhs.pos(),
    {
        self.to_int() - rhs.to_int()
    }

    /// This position comes before `other`.
    pub fn lt(&self, other: &Self) -> (r: bool)
        requires
            self.wf(),
            other.wf(),
        ensures
            r == (self.pos() < other.pos()),
    {
        self.to_int() < other.to_int()
    }
}

/// A bitmap packed into 64-bit words: index `i` is bit `i % 64` of word `i / 64`.
pub struct RawBitMap {
    words: Vec<u64>,
}

impl RawBitMap {
    /// One flag per bit of every word, `true` where the bit is set.
    pub closed spec fn view(&self) -> Seq<bool> {
        Seq::new((self.words@.len() * 64) as nat, |i: int| bit_of(self.words@[i / 64], i % 64))
    }

    /// A bitmap of `words` words, every bit clear.
    pub fn new(words: usize) -> (r: Self)
        requires
            words <= ELEM_CNT,
        ensures
            r@ == all_free((words * 64) as nat),
    {
        let mut v: Vec<u64> = Vec::new();
        let mut i: usize = 0;
        while i < words
            invariant
                i <= words <= ELEM_CNT,
                v@.len() == i,
                forall|k: int| 0 <= k < i ==> v@[k] == 0u64,
            decreases words - i,
        {
            v.push(0u64);
            i += 1;
        }
        let r = RawBitMap { words: v };
        proof {
            assert forall|k: int| 0 <= k < r@.len() implies !r@[k] by {
                lemma_join(k);
                assert(k / 64 < words) by (nonlinear_arith)
                    requires
                        k == (k / 64) * 64 + k % 64,
                        0 <= k % 64 < 64,
                        k < words * 64,
                ;
                lemma_zero_word((k % 64) as u64);
            }
            assert(r@ =~= all_free((words * 64) as nat));
        }
        r
    }

    /// The bit at position `i`.
    pub fn get(&self, i: &RawIndex) -> (r: bool)
        requires
            i.wf(),
            i.pos() < self@.len(),
        ensures
            r == self@[i.pos()],
    {
        proof {
            lemma_split(i.word as int, i.bit as int);
            assert(i.word < self.words@.len()) by (nonlinear_arith)
                requires
                    i.word * 64 + i.bit < self.words@.len() * 64,
                    i.bit >= 0,
            ;
        }
        (self.words[i.word] >> (i.bit as u64)) & 1u64 == 1u64
    }

    /// Sets the bit at position `i` to `b`.
    pub fn set(&mut self, i: &RawIndex, b: bool)
        requires
            i.wf(),
            i.pos() < old(self)@.len(),
        ensures
            final(self)@ == old(self)@.update(i.pos(), b),
    {
        proof {
            lemma_split(i.word as int, i.bit as int);
            assert(i.word < self.words@.len()) by (nonlinear_arith)
                requires
                    i.word * 64 + i.bit < self.words@.len() * 64,
                    i.bit >= 0,
            ;
        }
        let ghost before = self@;
        let w = self.words[i.word];
        let v: u64 = if b { 1 } else { 0 };
        let nw = (w & !(1u64 << (i.bit as u64))) | (v << (i.bit as u64));
        self.words.set(i.word, nw);
        proof {
            assert forall|k: int| 0 <= k < self@.len() implies self@[k] == before.update(
                i.pos(),
                b,
            )[k] by {
                lemma_join(k);
                lemma_set_bit(w, i.bit as u64, v, (k % 64) as u64);
                if k / 64 == i.word {
                    if k % 64 == i.bit {
                        assert(k == i.pos());
                    } else {
                        assert(k != i.pos());
                    }
                } else {
                    assert(k != i.pos());
                }
            }
            assert(self@ =~= before.update(i.pos(), b));
        }
    }

    /// Sets every bit of `[begin, end)` to `b`, one at a time. A range whose start is
    /// not before its end changes nothing.
    pub fn set_range(&mut self, begin: &RawIndex, end: &RawIndex, b: bool)
        requires
            begin.wf(),
            end.wf(),
            begin.pos() < end.pos() ==> end.pos() <= old(self)@.len(),
        ensures
            final(self)@ == mark(old(self)@, begin.pos(), end.pos() - begin.pos(), b),
    {
        let ghost before = self@;
        let mut i = *begin;
        while i.lt(end)
            invariant
                i.wf(),
                end.wf(),
                begin.pos() <= i.pos(),
                i.pos() > begin.pos() ==> i.pos() <= end.pos(),
                begin.pos() < end.pos() ==> end.pos() <= before.len(),
                self@ =~= mark(before, begin.pos(), i.pos() - begin.pos(), b),
            decreases end.pos() - i.pos(),
        {
            self.set(&i, b);
            i.add_assign(1);
        }
        assert(self@ =~= mark(before, begin.pos(), end.pos() - begin.pos(), b));
    }
}

/// `a / b`, rounded up.
pub fn div_ceil(a: usize, b: usize) -> (r: usize)
    requires
        b > 0,
        a + b - 1 <= usize::MAX,
    ensures
        r == (a + b - 1) / (b as int),
{
    (a + (b - 1)) / b
}

/// A first-fit allocator that keeps its occupancy packed into 64-bit words.
pub struct LinearBitMap {
    size: usize,
    bitmap: RawBitMap,
    end: RawIndex,
}

impl LinearBitMap {
    /// Allocates one index: the lowest free one.
    pub fn alloc_1(&mut self) -> (r: Option<usize>)
        requires
            old(self).wf(),
        ensures
            final(self).wf(),
            is_alloc_result(old(self).occupancy(), r, 1, 1),
            final(self).occupancy() == after_alloc(old(self).occupancy(), r, 1),
    {
        let ghost occ = self.occupancy();
        let mut i = RawIndex::new();
        while i.lt(&self.end)
            invariant
                self.wf(),
                self.occupancy() == occ,
                occ == old(self).occupancy(),
                i.wf(),
                0 <= i.pos() <= self.size,
                forall|k: int| 0 <= k < i.pos() ==> occ[k],
            decreases self.size - i.pos(),
        {
            if !self.bitmap.get(&i) {
                self.bitmap.set(&i, true);
                proof {
                    assert forall|c: int| 0 <= c < i.pos() && c % 1 == 0 implies !free_run(
                        occ,
                        c,
                        1,
                    ) by {
                        assert(occ[c]);
                    }
                    assert(is_first_fit(occ, i.pos(), 1, 1));
                    lemma_first_fit_is(occ, i.pos(), 1, 1);
                    assert(self.occupancy() =~= mark(occ, i.pos(), 1, true));
                }
                return Some(i.to_int());
            }
            i.add_assign(1);
        }
        proof {
            assert forall|c: int| 0 <= c < i.pos() && c % 1 == 0 implies !#[trigger] free_run(
                occ,
                c,
                1,
            ) by {
                assert(occ[c]);
            }
            lemma_none_at_end(occ, i.pos(), 1, 1);
        }
        None
    }

    /// The first position at or after `begin` whose flag differs from the one at `begin`,
    /// or the end of the allocator's range.
    pub fn next_toggle(&self, begin: &RawIndex) -> (r: RawIndex)
        requires
            self.wf(),
            begin.wf(),
            begin.pos() <= self.occupancy().len(),
        ensures
            r.wf(),
            begin.pos() <= r.pos() <= self.occupancy().len(),
            begin.pos() < self.occupancy().len() ==> begin.pos() < r.pos(),
            forall|k: int|
                begin.pos() <= k < r.pos() ==> #[trigger] self.occupancy()[k] == self.occupancy()[begin.pos()],
            r.pos() == self.occupancy().len() || self.occupancy()[r.pos()] != self.occupancy()[begin.pos()],
    {
        if !begin.lt(&self.end) {
            return *begin;
        }
        let b = self.bitmap.get(begin);
        let mut i = *begin;
        while i.lt(&self.end) && self.bitmap.get(&i) == b
            invariant
                self.wf(),
                i.wf(),
                begin.pos() <= i.pos() <= self.size,
                b == self.occupancy()[begin.pos()],
                forall|k: int| begin.pos() <= k < i.pos() ==> self.occupancy()[k] == b,
            decreases self.size - i.pos(),
        {
            i.add_assign(1);
        }
        i
    }

    /// The first position whose flag is `b`, or the end of the allocator's range.
    pub fn first_of(&self, b: bool) -> (r: RawIndex)
        requires
            self.wf(),
        ensures
            r.wf(),
            r.pos() <= self.occupancy().len(),
            forall|k: int| 0 <= k < r.pos() ==> self.occupancy()[k] != b,
            r.pos() == self.occupancy().len() || self.occupancy()[r.pos()] == b,
    {
        let i = RawIndex::new();
        if self.bitmap.get(&i) == b {
            return i;
        }
        self.next_toggle(&i)
    }
}

impl BitAllocator for LinearBitMap {
    closed spec fn occupancy(&self) -> Seq<bool> {
        self.bitmap@.subrange(0, self.size as int)
    }

    closed spec fn wf(&self) -> bool {
        &&& 0 < self.size <= MAX_LEN
        &&& self.size <= self.bitmap@.len()
        &&& self.end.wf()
        &&& self.end.pos() == self.size
    }

    fn new(size: usize) -> (r: Self) {
        let words = div_ceil(size, ELEM_WIDTH);
        proof {
            lemma_join((size + 63) as int);
            assert(words <= ELEM_CNT);
        }
        let bitmap = RawBitMap::new(words);
        let r = LinearBitMap { size, bitmap, end: RawIndex::from_int(size) };
        assert(r.occupancy() =~= all_free(size as nat));
        r
    }

    fn alloc_n(&mut self, n: usize) -> (r: Option<usize>) {
        if n == 1 {
            return self.alloc_1();
        }
        assert(1usize & 0usize == 0usize) by (bit_vector);
        self.alloc_aligned(n, 1)
    }

    fn alloc_aligned(&mut self, n: usize, alignment: usize) -> (r: Option<usize>) {
        let ghost occ = self.occupancy();
        let mut begin = self.first_of(false);
        proof {
            assert(none_below(occ, begin.pos(), n as int, alignment as int)) by {
                lemma_skip_used(occ, 0, begin.pos(), n as int, alignment as int);
            }
        }
        loop
            invariant
                self.wf(),
                self.occupancy() == occ,
                occ == old(self).occupancy(),
                0 < n <= self.size,
                is_power_of_two(alignment),
                begin.wf(),
                begin.pos() <= self.size,
                begin.pos() == self.size || !occ[begin.pos()],
                none_below(occ, begin.pos(), n as int, alignment as int),
            decreases self.size - begin.pos(),
        {
            if !begin.lt(&self.end) {
                proof {
                    lemma_none_at_end(occ, begin.pos(), n as int, alignment as int);
                }
                return None;
            }
            let end = self.next_toggle(&begin);
            proof {
                lemma_power_of_two_room(alignment);
            }
            let aligned = begin.next_aligned(alignment);
            if aligned.lt(&end) && end.sub(aligned) >= n {
                self.bitmap.set_range(&aligned, &aligned.add(n), true);
                proof {
                    lemma_fit_in_run(occ, begin.pos(), end.pos(), aligned.pos(), n as int, alignment as int);
                    lemma_first_fit_is(occ, aligned.pos(), n as int, alignment as int);
                    assert(self.occupancy() =~= mark(occ, aligned.pos(), n as int, true));
                }
                return Some(aligned.to_int());
            }
            proof {
                lemma_skip_run(occ, begin.pos(), end.pos(), aligned.pos(), n as int, alignment as int);
            }
            begin = self.next_toggle(&end);
            proof {
                lemma_skip_used(occ, end.pos(), begin.pos(), n as int, alignment as int);
            }
        }
    }

    fn dealloc(&mut self, begin: usize, n: usize) {
        self.bitmap.set_range(&RawIndex::from_int(begin), &RawIndex::from_int(begin + n), false);
        assert(self.occupancy() =~= mark(old(self).occupancy(), begin as int, n as int, false));
    }
}

} // verus!
