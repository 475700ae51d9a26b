//! Truncating division on signed fixed-point values.

use vstd::prelude::*;

verus! {

/// Division truncating toward zero, for a positive divisor.
pub open spec fn div_t(a: int, b: int) -> int {
    if a >= 0 {
        a / b
    } else {
        -((-a) / b)
    }
}

/// Quotient of `a / b` truncated toward zero.
pub fn div_trunc_i64(a: i64, b: i64) -> (q: i64)
    requires
        0 < b,
        i64::MIN < a,
    ensures
        q == div_t(a as int, b as int),
{
    if a >= 0 {
        let n: u64 = a as u64;
        let q0: u64 = n / (b as u64);
        proof {
            assert(q0 <= n);
        }
        q0 as i64
    } else {
        let n: u64 = (-a) as u64;
        let q0: u64 = n / (b as u64);
        proof {
            assert(q0 <= n);
        }
        -(q0 as i64)
    }
}

/// A bound on the dividend bounds the truncated quotient.
pub proof fn lemma_div_t_bound(a: int, b: int, cap: int)
    requires
        0 < b,
        0 <= cap,
        -cap <= a <= cap,
    ensures
        -(cap / b) <= div_t(a, b) <= cap / b,
        a >= 0 ==> div_t(a, b) >= 0,
{
    vstd::arithmetic::div_mod::lemma_div_multiples_vanish(0, b);
    if a >= 0 {
        vstd::arithmetic::div_mod::lemma_div_is_ordered(0, a, b);
        vstd::arithmetic::div_mod::lemma_div_is_ordered(a, cap, b);
        vstd::arithmetic::div_mod::lemma_div_is_ordered(0, cap, b);
    } else {
        vstd::arithmetic::div_mod::lemma_div_is_ordered(0, -a, b);
        vstd::arithmetic::div_mod::lemma_div_is_ordered(-a, cap, b);
    }
}

/// Hoisting a multiple of the divisor out of a division.
pub proof fn lemma_div_add_multiple(x: int, b: int, d: int)
    requires
        0 <= b,
        0 < d,
    ensures
        (d * x + b) / d == x + b / d,
{
    let q = b / d;
    let r = b % d;
    vstd::arithmetic::div_mod::lemma_fundamental_div_mod(b, d);
    assert(d * x + b == (x + q) * d + r) by (nonlinear_arith)
        requires b == d * q + r;
    vstd::arithmetic::div_mod::lemma_fundamental_div_mod_converse_div(d * x + b, d, x + q, r);
}

} // verus!
