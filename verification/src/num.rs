//! Verified integer helpers used by the weight and reward arithmetic.

use vstd::prelude::*;

verus! {

/// Integer square root by binary search: the greatest `r` with `r * r <= n`.
pub fn isqrt_u128(n: u128) -> (r: u64)
    requires
        n <= (u64::MAX as u128) * (u64::MAX as u128),
    ensures
        (r as int) * (r as int) <= n as int,
        (n as int) < ((r as int) + 1) * ((r as int) + 1),
{
    let mut lo: u64 = 0;
    let mut hi: u64 = u64::MAX;
    while lo < hi
        invariant
            (lo as int) * (lo as int) <= n as int,
            (n as int) < ((hi as int) + 1) * ((hi as int) + 1),
            lo <= hi,
        decreases hi - lo,
    {
        let mid: u64 = hi - (hi - lo) / 2;
        proof {
            vstd::arithmetic::mul::lemma_mul_upper_bound(
                mid as int,
                u64::MAX as int,
                mid as int,
                u64::MAX as int,
            );
        }
        if (mid as u128) * (mid as u128) <= n {
            lo = mid;
        } else {
            hi = mid - 1;
        }
    }
    lo
}

/// The integer square root as a mathematical value: the unique `m` with
/// `m^2 <= n < (m+1)^2`.
pub open spec fn isqrt_spec(n: int) -> int {
    choose|m: int| 0 <= m && #[trigger] (m * m) <= n && n < (m + 1) * (m + 1)
}

/// No two values satisfy the square-root characterisation.
pub proof fn lemma_isqrt_unique(n: int, a: int)
    requires
        0 <= a,
        a * a <= n,
        n < (a + 1) * (a + 1),
    ensures
        isqrt_spec(n) == a,
{
    assert(0 <= a && a * a <= n && n < (a + 1) * (a + 1));
    let b = isqrt_spec(n);
    assert(0 <= b && b * b <= n && n < (b + 1) * (b + 1));
    if a < b {
        assert((a + 1) * (a + 1) <= b * b) by (nonlinear_arith)
            requires
                0 <= a,
                a + 1 <= b,
        ;
    }
    if b < a {
        assert((b + 1) * (b + 1) <= a * a) by (nonlinear_arith)
            requires
                0 <= b,
                b + 1 <= a,
        ;
    }
}

/// Integer square root, pinned to the value `isqrt_spec` names.
pub fn isqrt_exact(n: u128) -> (r: u64)
    requires
        n <= (u64::MAX as u128) * (u64::MAX as u128),
    ensures
        r as int == isqrt_spec(n as int),
{
    let r: u64 = isqrt_u128(n);
    proof {
        lemma_isqrt_unique(n as int, r as int);
    }
    r
}

/// `w * r / t`, exact, for a part `w` of a whole `t`: the result never
/// exceeds `r`, so a proportional share never exceeds the full reward.
pub fn part_of(w: u128, r: u64, t: u128) -> (res: u128)
    requires
        0 < t,
        w <= t,
        t <= u64::MAX as u128,
    ensures
        res == (w as int) * (r as int) / (t as int),
        res <= r as u128,
{
    proof {
        vstd::arithmetic::mul::lemma_mul_upper_bound(
            w as int,
            u64::MAX as int,
            r as int,
            u64::MAX as int,
        );
    }
    let p: u128 = w * (r as u128);
    proof {
        vstd::arithmetic::mul::lemma_mul_inequality(w as int, t as int, r as int);
        vstd::arithmetic::div_mod::lemma_div_is_ordered(
            (w as int) * (r as int),
            (t as int) * (r as int),
            t as int,
        );
        vstd::arithmetic::div_mod::lemma_div_by_multiple(r as int, t as int);
        vstd::arithmetic::mul::lemma_mul_is_commutative(t as int, r as int);
    }
    p / t
}

} // verus!
