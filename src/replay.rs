use vstd::prelude::*;

use crate::bitalloc;
use crate::bytealloc;
use crate::model::{all_free, first_fit, is_power_of_two, mark, MAX_LEN};
use crate::BitAllocator;

verus! {

/// One call on an allocator.
#[derive(Clone, Copy, PartialEq, Eq, Structural, Debug)]
pub enum Op {
    /// `alloc_n(n)`.
    Alloc(usize),
    /// `alloc_aligned(n, align)`.
    AllocAligned(usize, usize),
    /// `dealloc(begin, n)`.
    Dealloc(usize, usize),
}

/// `op` meets the requirements of its call on an allocator of `size` indices.
pub open spec fn op_valid(size: nat, op: Op) -> bool {
    match op {
        Op::Alloc(n) => 0 < n <= size,
        Op::AllocAligned(n, align) => 0 < n <= size && is_power_of_two(align),
        Op::Dealloc(begin, n) => begin + n <= size,
    }
}

/// Every call of `ops` meets its requirements on an allocator of `size` indices.
pub open spec fn ops_valid(size: nat, ops: Seq<Op>) -> bool {
    forall|i: int| 0 <= i < ops.len() ==> op_valid(size, #[trigger] ops[i])
}

/// The value that `first_fit` picks, as a `usize`.
pub open spec fn fit_result(occ: Seq<bool>, n: int, align: int) -> Option<usize> {
    match first_fit(occ, n, align) {
        Some(b) => Some(b as usize),
        None => None,
    }
}

/// What `op` returns on the occupancy `occ` (`None` for a deallocation).
pub open spec fn op_result(occ: Seq<bool>, op: Op) -> Option<usize> {
    match op {
        Op::Alloc(n) => fit_result(occ, n as int, 1),
        Op::AllocAligned(n, align) => fit_result(occ, n as int, align as int),
        Op::Dealloc(_, _) => None,
    }
}

/// The occupancy after `op` on the occupancy `occ`.
pub open spec fn op_state(occ: Seq<bool>, op: Op) -> Seq<bool> {
    match op {
        Op::Alloc(n) => match first_fit(occ, n as int, 1) {
            Some(b) => mark(occ, b, n as int, true),
            None => occ,
        },
        Op::AllocAligned(n, align) => match first_fit(occ, n as int, align as int) {
            Some(b) => mark(occ, b, n as int, true),
            None => occ,
        },
        Op::Dealloc(begin, n) => mark(occ, begin as int, n as int, false),
    }
}

/// The occupancy after the calls `ops`, one after the other, from `occ`.
pub open spec fn run_state(occ: Seq<bool>, ops: Seq<Op>) -> Seq<bool>
    decreases ops.len(),
{
    if ops.len() == 0 {
        occ
    } else {
        op_state(run_state(occ, ops.drop_last()), ops.last())
    }
}

/// What the calls `ops` return, one after the other, from `occ`.
pub open spec fn run_results(occ: Seq<bool>, ops: Seq<Op>) -> Seq<Option<usize>>
    decreases ops.len(),
{
    if ops.len() == 0 {
        Seq::empty()
    } else {
        run_results(occ, ops.drop_last()).push(op_result(run_state(occ, ops.drop_last()), ops.last()))
    }
}

/// Applies `ops` to `a` in order and collects what each call returns (`None` for a
/// deallocation).
pub fn replay<A: BitAllocator>(a: &mut A, ops: &Vec<Op>) -> (r: Vec<Option<usize>>)
    requires
        old(a).wf(),
        ops_valid(old(a).occupancy().len(), ops@),
    ensures
        final(a).wf(),
        r@ == run_results(old(a).occupancy(), ops@),
        final(a).occupancy() == run_state(old(a).occupancy(), ops@),
{
    let ghost occ0 = a.occupancy();
    let mut out: Vec<Option<usize>> = Vec::new();
    let mut i: usize = 0;
    while i < ops.len()
        invariant
            a.wf(),
            a.occupancy().len() == occ0.len(),
            ops_valid(occ0.len(), ops@),
            i <= ops@.len(),
            out@ == run_results(occ0, ops@.take(i as int)),
            a.occupancy() == run_state(occ0, ops@.take(i as int)),
        decreases ops.len() - i,
    {
        let op = ops[i];
        assert(op_valid(occ0.len(), ops@[i as int]));
        let res = match op {
            Op::Alloc(n) => a.alloc_n(n),
            Op::AllocAligned(n, align) => a.alloc_aligned(n, align),
            Op::Dealloc(begin, n) => {
                a.dealloc(begin, n);
                None
            },
        };
        proof {
            assert(ops@.take(i + 1).drop_last() =~= ops@.take(i as int));
            assert(ops@.take(i + 1).last() == op);
        }
        out.push(res);
        i += 1;
    }
    assert(ops@.take(ops@.len() as int) =~= ops@);
    out
}

/// Runs `ops` on a packed-bit and on a byte-flag allocator of `size` indices and
/// returns what each call returned on each.
pub fn differential(size: usize, ops: &Vec<Op>) -> (r: (Vec<Option<usize>>, Vec<Option<usize>>))
    requires
        0 < size <= MAX_LEN,
        ops_valid(size as nat, ops@),
    ensures
        r.0@ == r.1@,
        r.0@ == run_results(all_free(size as nat), ops@),
{
    let mut packed = bitalloc::LinearBitMap::new(size);
    let mut flags = bytealloc::LinearBitMap::new(size);
    let a = replay(&mut packed, ops);
    let b = replay(&mut flags, ops);
    (a, b)
}

} // verus!
