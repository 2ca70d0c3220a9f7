use vstd::prelude::*;

use crate::model::{
    all_free, first_fit, free_run, is_first_fit, lemma_first_fit_is, lemma_first_fit_none, mark,
    MAX_LEN,
};
use crate::replay::{fit_result, op_result, op_state, run_results, run_state, Op};

verus! {

/// The first `k` of `size` indices in use, the rest free.
pub open spec fn used_prefix(size: nat, k: int) -> Seq<bool> {
    Seq::new(size, |i: int| i < k)
}

/// `k` calls of `alloc_n(1)`.
pub open spec fn single_units(k: nat) -> Seq<Op> {
    Seq::new(k, |i: int| Op::Alloc(1))
}

proof fn lemma_single_units_prefix(size: nat, k: nat)
    requires
        0 < size <= MAX_LEN,
        k <= size,
    ensures
        run_state(all_free(size), single_units(k)) == used_prefix(size, k as int),
        run_results(all_free(size), single_units(k)) == Seq::new(k, |i: int| Some(i as usize)),
    decreases k,
{
    if k == 0 {
        assert(all_free(size) =~= used_prefix(size, 0));
        assert(run_results(all_free(size), single_units(k)) =~= Seq::new(
            k,
            |i: int| Some(i as usize),
        ));
    } else {
        let j = (k - 1) as nat;
        lemma_single_units_prefix(size, j);
        assert(single_units(k).drop_last() =~= single_units(j));
        let occ = used_prefix(size, j as int);
        assert forall|c: int| 0 <= c < j && c % 1 == 0 implies !free_run(occ, c, 1) by {
            assert(occ[c]);
        }
        assert(is_first_fit(occ, j as int, 1, 1));
        lemma_first_fit_is(occ, j as int, 1, 1);
        assert(op_state(occ, Op::Alloc(1)) =~= used_prefix(size, k as int));
        assert(run_results(all_free(size), single_units(k)) =~= Seq::new(
            k,
            |i: int| Some(i as usize),
        ));
    }
}

/// A fresh allocator of `size` indices serves exactly `size` single-index allocations,
/// at 0, 1, ..., `size - 1`, and then returns `None`.
pub proof fn lemma_fresh_single_units(size: nat)
    requires
        0 < size <= MAX_LEN,
    ensures
        run_results(all_free(size), single_units(size + 1)) == Seq::new(
            size + 1,
            |i: int| if i < size { Some(i as usize) } else { None },
        ),
{
    lemma_single_units_prefix(size, size);
    assert(single_units(size + 1).drop_last() =~= single_units(size));
    let occ = used_prefix(size, size as int);
    assert forall|b: int| 0 <= b && b % 1 == 0 implies !free_run(occ, b, 1) by {
        if b < size {
            assert(occ[b]);
        }
    }
    lemma_first_fit_none(occ, 1, 1);
    assert(op_result(occ, Op::Alloc(1)) is None);
    assert(run_results(all_free(size), single_units(size + 1)) =~= Seq::new(
        size + 1,
        |i: int| if i < size { Some(i as usize) } else { None },
    ));
}

/// Running `a` then `b` gives what `a` gives, then what `b` gives from the state `a`
/// left.
pub proof fn lemma_run_append(occ: Seq<bool>, a: Seq<Op>, b: Seq<Op>)
    ensures
        run_state(occ, a + b) == run_state(run_state(occ, a), b),
        run_results(occ, a + b) == run_results(occ, a) + run_results(run_state(occ, a), b),
    decreases b.len(),
{
    if b.len() == 0 {
        assert(a + b =~= a);
        assert(run_results(occ, a) + run_results(run_state(occ, a), b) =~= run_results(occ, a));
    } else {
        lemma_run_append(occ, a, b.drop_last());
        assert((a + b).drop_last() =~= a + b.drop_last());
        assert((a + b).last() == b.last());
        assert(run_results(occ, a + b) =~= run_results(occ, a) + run_results(
            run_state(occ, a),
            b,
        ));
    }
}

/// An allocation of `n` indices that returned `begin`, followed by `dealloc(begin, n)`,
/// leaves the occupancy as it was, so any later calls return what they would have
/// returned without the pair.
pub proof fn lemma_alloc_dealloc_round_trip(occ: Seq<bool>, n: usize, begin: usize, rest: Seq<Op>)
    requires
        occ.len() <= MAX_LEN,
        0 < n <= occ.len(),
        run_results(occ, seq![Op::Alloc(n)]) == seq![Some(begin)],
    ensures
        run_state(occ, seq![Op::Alloc(n), Op::Dealloc(begin, n)]) == occ,
        run_results(occ, seq![Op::Alloc(n), Op::Dealloc(begin, n)] + rest) == seq![
            Some(begin),
            None,
        ] + run_results(occ, rest),
{
    let pair = seq![Op::Alloc(n), Op::Dealloc(begin, n)];
    let one = seq![Op::Alloc(n)];
    let none = Seq::<Op>::empty();
    assert(one.drop_last() =~= none);
    assert(pair.drop_last() =~= one);
    assert(run_state(occ, none) == occ);
    assert(run_results(occ, none) == Seq::<Option<usize>>::empty());
    assert(run_results(occ, one) =~= seq![op_result(occ, Op::Alloc(n))]);
    assert(seq![Some(begin)][0] == Some(begin));
    assert(fit_result(occ, n as int, 1) == Some(begin));
    assert(first_fit(occ, n as int, 1) is Some);
    let b = first_fit(occ, n as int, 1)->Some_0;
    assert(is_first_fit(occ, b, n as int, 1));
    assert(b as usize == begin);
    assert(b == begin);
    let taken = run_state(occ, one);
    assert(taken == mark(occ, b, n as int, true));
    assert(run_state(occ, pair) == mark(taken, begin as int, n as int, false));
    assert(run_state(occ, pair) =~= occ);
    lemma_run_append(occ, pair, rest);
    assert(run_results(occ, pair) =~= seq![Some(begin), None]);
}

} // verus!
