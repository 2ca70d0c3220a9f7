use vstd::prelude::*;

verus! {

/// The largest number of indices that any allocator can manage.
pub const MAX_LEN: usize = 1536;

/// `[b, b + n)` lies inside the occupancy sequence and every index in it is free.
pub open spec fn free_run(occ: Seq<bool>, b: int, n: int) -> bool {
    0 <= b && b + n <= occ.len() && forall|k: int| b <= k < b + n ==> !occ[k]
}

/// `b` is the lowest multiple of `align` at which a free run of length `n` starts.
pub open spec fn is_first_fit(occ: Seq<bool>, b: int, n: int, align: int) -> bool {
    &&& free_run(occ, b, n)
    &&& b % align == 0
    &&& forall|c: int| 0 <= c < b && c % align == 0 ==> !free_run(occ, c, n)
}

/// The start that a first-fit search for `n` indices aligned to `align` picks, if any.
pub open spec fn first_fit(occ: Seq<bool>, n: int, align: int) -> Option<int> {
    if exists|b: int| is_first_fit(occ, b, n, align) {
        Some(choose|b: int| is_first_fit(occ, b, n, align))
    } else {
        None
    }
}

/// `occ` with every index of `[b, b + n)` set to `v`.
pub open spec fn mark(occ: Seq<bool>, b: int, n: int, v: bool) -> Seq<bool> {
    Seq::new(occ.len(), |k: int| if b <= k < b + n { v } else { occ[k] })
}

/// The occupancy after an allocation of `n` indices that returned `r`.
pub open spec fn after_alloc(occ: Seq<bool>, r: Option<usize>, n: int) -> Seq<bool> {
    match r {
        Some(b) => mark(occ, b as int, n, true),
        None => occ,
    }
}

/// `r` is what a first-fit allocation of `n` indices aligned to `align` returns on `occ`.
pub open spec fn is_alloc_result(occ: Seq<bool>, r: Option<usize>, n: int, align: int) -> bool {
    match r {
        Some(b) => first_fit(occ, n, align) == Some(b as int),
        None => first_fit(occ, n, align) is None,
    }
}

/// A fresh occupancy sequence: `size` indices, all free.
pub open spec fn all_free(size: nat) -> Seq<bool> {
    Seq::new(size, |k: int| false)
}

/// `a` is a power of two.
pub open spec fn is_power_of_two(a: usize) -> bool {
    a > 0 && a & ((a - 1) as usize) == 0
}

/// A power of two is at most half the range of a `usize` plus one, so rounding any
/// index of an allocator up to a multiple of it stays within a `usize`.
pub proof fn lemma_power_of_two_room(a: usize)
    requires
        is_power_of_two(a),
    ensures
        (a - 1) + MAX_LEN <= usize::MAX,
{
    let v = a as u64;
    let w = (a - 1) as u64;
    assert(v & w == (a & ((a - 1) as usize)) as u64);
    assert(w == (v - 1) as u64);
    assert(v > 0 && v & ((v - 1) as u64) == 0 ==> v <= 0x8000_0000_0000_0000u64) by (bit_vector);
    assert(v > 0 && v <= 0xffff_ffffu64 && v & ((v - 1) as u64) == 0 ==> v <= 0x8000_0000u64)
        by (bit_vector);
}

/// At most one start is the first fit.
pub proof fn lemma_first_fit_unique(occ: Seq<bool>, b: int, c: int, n: int, align: int)
    requires
        is_first_fit(occ, b, n, align),
        is_first_fit(occ, c, n, align),
    ensures
        b == c,
{
    if b < c {
        assert(!free_run(occ, b, n));
    } else if c < b {
        assert(!free_run(occ, c, n));
    }
}

/// A start that is the first fit is what `first_fit` picks.
pub proof fn lemma_first_fit_is(occ: Seq<bool>, b: int, n: int, align: int)
    requires
        is_first_fit(occ, b, n, align),
    ensures
        first_fit(occ, n, align) == Some(b),
{
    let c = choose|c: int| is_first_fit(occ, c, n, align);
    lemma_first_fit_unique(occ, b, c, n, align);
}

/// Where no aligned free run exists, `first_fit` picks nothing.
pub proof fn lemma_first_fit_none(occ: Seq<bool>, n: int, align: int)
    requires
        forall|b: int| 0 <= b && b % align == 0 ==> !free_run(occ, b, n),
    ensures
        first_fit(occ, n, align) is None,
{
    if exists|b: int| is_first_fit(occ, b, n, align) {
        let b = choose|b: int| is_first_fit(occ, b, n, align);
        assert(free_run(occ, b, n));
    }
}

/// A search that has passed the end of `occ` found nothing.
pub proof fn lemma_none_at_end(occ: Seq<bool>, p: int, n: int, align: int)
    requires
        none_below(occ, p, n, align),
        p >= occ.len(),
        n > 0,
    ensures
        first_fit(occ, n, align) is None,
{
    assert forall|c: int| 0 <= c && c % align == 0 implies !free_run(occ, c, n) by {
        if c < p {
            assert(!free_run(occ, c, n));
        }
    }
    lemma_first_fit_none(occ, n, align);
}

/// No aligned free run of length `n` starts below `p`.
pub open spec fn none_below(occ: Seq<bool>, p: int, n: int, align: int) -> bool {
    forall|c: int| 0 <= c < p && c % align == 0 ==> !#[trigger] free_run(occ, c, n)
}

/// `a` is the lowest multiple of `align` that is at least `x`.
pub open spec fn is_align_up(x: int, align: int, a: int) -> bool {
    &&& a >= x
    &&& a % align == 0
    &&& forall|m: int| m >= x && #[trigger] (m % align) == 0 ==> m >= a
}

/// The lowest multiple of `align` that is at least `x`.
pub fn align_up(x: usize, align: usize) -> (r: usize)
    requires
        align > 0,
        x + align - 1 <= usize::MAX,
    ensures
        is_align_up(x as int, align as int, r as int),
        r < x + align,
{
    let rem = x % align;
    if rem == 0 {
        x
    } else {
        proof {
            lemma_align_up_gap(x as int, align as int);
        }
        x - rem + align
    }
}

proof fn lemma_align_up_gap(x: int, align: int)
    requires
        x >= 0,
        align > 0,
        x % align != 0,
    ensures
        is_align_up(x, align, x - x % align + align),
        x - x % align + align < x + align,
        x % align <= x,
{
    vstd::arithmetic::div_mod::lemma_mod_decreases(x as nat, align as nat);
    let q = x / align;
    let rem = x % align;
    assert(x == q * align + rem && 0 < rem < align) by {
        vstd::arithmetic::div_mod::lemma_fundamental_div_mod(x, align);
    }
    assert((q + 1) * align == x - rem + align) by (nonlinear_arith)
        requires
            x == q * align + rem,
    ;
    assert((x - rem + align) % align == 0) by {
        vstd::arithmetic::div_mod::lemma_mod_multiples_basic(q + 1, align);
    }
    assert forall|m: int| m >= x && #[trigger] (m % align) == 0 implies m >= x - rem + align by {
        let t = m / align;
        vstd::arithmetic::div_mod::lemma_fundamental_div_mod(m, align);
        assert(m == t * align);
        if t <= q {
            assert(t * align <= q * align) by (nonlinear_arith)
                requires
                    t <= q,
                    align > 0,
            ;
        } else {
            assert(t * align >= (q + 1) * align) by (nonlinear_arith)
                requires
                    t >= q + 1,
                    align > 0,
            ;
        }
    }
}

/// Indices in `[p, q)` are all in use, so no free run starts there.
pub proof fn lemma_skip_used(occ: Seq<bool>, p: int, q: int, n: int, align: int)
    requires
        none_below(occ, p, n, align),
        n > 0,
        0 <= p <= q,
        forall|k: int| p <= k < q ==> occ[k],
    ensures
        none_below(occ, q, n, align),
{
    assert forall|c: int| 0 <= c < q && c % align == 0 implies !#[trigger] free_run(occ, c, n) by {
        if c >= p {
            assert(occ[c]);
        }
    }
}

/// The free run `[s, e)`, ended by a used index or the end of `occ`, has no room
/// for `n` indices from its first aligned index `a` on.
pub proof fn lemma_skip_run(occ: Seq<bool>, s: int, e: int, a: int, n: int, align: int)
    requires
        none_below(occ, s, n, align),
        n > 0,
        0 <= s < e <= occ.len(),
        e == occ.len() || occ[e],
        is_align_up(s, align, a),
        !(a < e && e - a >= n),
    ensures
        none_below(occ, e, n, align),
{
    assert forall|c: int| 0 <= c < e && c % align == 0 implies !#[trigger] free_run(occ, c, n) by {
        if c >= s && free_run(occ, c, n) {
            assert(c >= a);
            if e < occ.len() {
                assert(!occ[e]);
            }
        }
    }
}

/// The free run `[s, e)` has room for `n` indices from its first aligned index `a` on:
/// `a` is the first fit.
pub proof fn lemma_fit_in_run(occ: Seq<bool>, s: int, e: int, a: int, n: int, align: int)
    requires
        none_below(occ, s, n, align),
        0 <= s < e <= occ.len(),
        forall|k: int| s <= k < e ==> !occ[k],
        is_align_up(s, align, a),
        a + n <= e,
    ensures
        is_first_fit(occ, a, n, align),
{
    assert forall|c: int| 0 <= c < a && c % align == 0 implies !free_run(occ, c, n) by {
        if c >= s {
            assert(c >= a);
        } else {
            assert(!free_run(occ, c, n));
        }
    }
}

} // verus!
