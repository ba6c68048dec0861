//! Whole numbers in double precision: beyond 53 bits they are rounded to
//! the nearest representable one, ties to the even one.

use vstd::prelude::*;

verus! {

/// Numbers below this are represented as they are.
pub const EXACT_LIMIT: u64 = 9_007_199_254_740_992;

/// How far apart representable numbers are around `n`.
pub open spec fn spacing(n: nat) -> nat
    decreases n,
{
    if n < EXACT_LIMIT {
        1
    } else {
        2 * spacing(n / 2)
    }
}

/// The representable number nearest to `n`.
pub open spec fn nearest(n: nat) -> nat {
    let step = spacing(n);
    let q = n / step;
    let r = n % step;
    if r * 2 < step || (r * 2 == step && q % 2 == 0) {
        q * step
    } else {
        (q + 1) * step
    }
}

/// Small numbers are not changed.
pub proof fn law_small_numbers_are_exact(n: nat)
    requires
        n < EXACT_LIMIT,
    ensures
        nearest(n) == n,
{
    assert(n / 1 == n && n % 1 == 0 && n * 1 == n);
}

pub fn nearest_double(n: u64) -> (r: u128)
    ensures
        r == nearest(n as nat),
{
    let mut step: u64 = 1;
    let mut m: u64 = n;
    assert(1 * spacing(m as nat) == spacing(m as nat));
    while m >= EXACT_LIMIT
        invariant
            step >= 1,
            m * step <= n,
            spacing(n as nat) == step * spacing(m as nat),
        decreases m,
    {
        let ghost s0 = step;
        let ghost m0 = m;
        assert(step < 2048) by (nonlinear_arith)
            requires
                m * step <= n,
                n <= u64::MAX,
                m >= 9_007_199_254_740_992,
        ;
        m = m / 2;
        step = step * 2;
        assert(m * step <= n) by (nonlinear_arith)
            requires
                m0 * s0 <= n,
                m == m0 / 2,
                step == s0 * 2,
        ;
        assert(s0 * (2 * spacing(m as nat)) == (s0 * 2) * spacing(m as nat)) by (nonlinear_arith);
    }
    assert(step * 1 == step);
    let q: u64 = n / step;
    let r: u64 = n % step;
    let wide_step: u128 = step as u128;
    assert(q * step <= n) by (nonlinear_arith)
        requires
            q == n / step,
            step >= 1,
    ;
    assert((q + 1) * step == q * step + step) by (nonlinear_arith);
    if (r as u128) * 2 < wide_step || ((r as u128) * 2 == wide_step && q % 2 == 0) {
        q as u128 * wide_step
    } else {
        (q as u128 + 1) * wide_step
    }
}

/// A number is rounded to a multiple of the step around it, and by no more
/// than half a step.
pub proof fn law_rounding_is_to_the_nearest(n: nat)
    ensures
        spacing(n) >= 1,
        exists|k: nat| nearest(n) == #[trigger] (k * spacing(n)),
        2 * (nearest(n) - n) <= spacing(n),
        2 * (n - nearest(n)) <= spacing(n),
{
    lemma_spacing(n);
    let step = spacing(n);
    let q = n / step;
    let r = n % step;
    vstd::arithmetic::div_mod::lemma_fundamental_div_mod(n as int, step as int);
    assert(step * q == q * step) by (nonlinear_arith);
    assert((q + 1) * step == q * step + step) by (nonlinear_arith);
    assert(n == q * step + r);
    assert(nearest(n) == q * step || nearest(n) == ((q + 1) as nat) * step);
}

proof fn lemma_spacing(n: nat)
    ensures
        spacing(n) >= 1,
    decreases n,
{
    if n >= EXACT_LIMIT {
        lemma_spacing(n / 2);
    }
}

} // verus!
