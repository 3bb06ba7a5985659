//! Saturating 64-bit arithmetic used by the backoff computation.

use vstd::prelude::*;
use vstd::arithmetic::div_mod::lemma_fundamental_div_mod;
use vstd::arithmetic::mul::lemma_mul_inequality;

verus! {

/// `x` capped at `u64::MAX`.
pub open spec fn sat64(x: int) -> int {
    if x <= u64::MAX { x } else { u64::MAX as int }
}

/// `a + b`, capped at `u64::MAX`.
pub fn sat_add(a: u64, b: u64) -> (r: u64)
    ensures
        r == sat64(a + b),
        r >= a,
        r >= b,
{
    if a <= u64::MAX - b {
        a + b
    } else {
        u64::MAX
    }
}

/// `a * b`, capped at `u64::MAX`.
pub fn sat_mul(a: u64, b: u64) -> (r: u64)
    ensures
        r == sat64(a * b),
{
    if b == 0 {
        assert(a * 0 == 0) by (nonlinear_arith);
        0
    } else {
        let q = u64::MAX / b;
        proof {
            lemma_fundamental_div_mod(u64::MAX as int, b as int);
        }
        if a <= q {
            proof {
                lemma_mul_inequality(a as int, q as int, b as int);
                assert(q * b <= u64::MAX);
            }
            a * b
        } else {
            proof {
                lemma_mul_inequality(q + 1, a as int, b as int);
                assert(q * b + u64::MAX % b == u64::MAX);
                assert((q + 1) * b == q * b + b) by (nonlinear_arith);
                assert(a * b > u64::MAX);
            }
            u64::MAX
        }
    }
}

} // verus!
