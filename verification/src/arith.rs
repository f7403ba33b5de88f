//! Division of integers by a positive number, with the three ways to round.

use vstd::arithmetic::div_mod::{
    lemma_fundamental_div_mod, lemma_fundamental_div_mod_converse, lemma_mod_bound,
};
use vstd::prelude::*;

verus! {

/// The quotient of `a` by a positive `b`, rounded down: the largest `q`
/// with `q * b <= a`.
pub open spec fn floor_div(a: int, b: int) -> int
    recommends
        b > 0,
{
    a / b
}

/// The quotient of `a` by a positive `b`, rounded up: the smallest `q` with
/// `a <= q * b`.
pub open spec fn ceil_div(a: int, b: int) -> int
    recommends
        b > 0,
{
    -((-a) / b)
}

/// The quotient of `a` by a positive `b`, rounded towards zero.
pub open spec fn trunc_div(a: int, b: int) -> int
    recommends
        b > 0,
{
    if a >= 0 {
        a / b
    } else {
        -((-a) / b)
    }
}

/// `floor_div(a, b)` lies within one `b` below `a`.
pub proof fn lemma_floor_div_bounds(a: int, b: int)
    requires
        b > 0,
    ensures
        floor_div(a, b) * b <= a < (floor_div(a, b) + 1) * b,
{
    lemma_fundamental_div_mod(a, b);
    lemma_mod_bound(a, b);
    assert(b * (a / b) == (a / b) * b) by (nonlinear_arith);
    assert((a / b + 1) * b == (a / b) * b + b) by (nonlinear_arith);
}

/// An integer `q` with `q * b <= a < (q + 1) * b` is `floor_div(a, b)`.
pub proof fn lemma_floor_div_unique(a: int, b: int, q: int)
    requires
        b > 0,
        q * b <= a < (q + 1) * b,
    ensures
        q == floor_div(a, b),
{
    assert((q + 1) * b == q * b + b) by (nonlinear_arith);
    lemma_fundamental_div_mod_converse(a, b, q, a - q * b);
}

/// `floor_div(a, b)` lies between zero and `a`.
pub proof fn lemma_floor_div_in_range(a: int, b: int)
    requires
        b > 0,
    ensures
        a >= 0 ==> 0 <= floor_div(a, b) <= a,
        a < 0 ==> a <= floor_div(a, b) < 0,
{
    lemma_floor_div_bounds(a, b);
    let q = floor_div(a, b);
    assert(a >= 0 ==> 0 <= q <= a) by (nonlinear_arith)
        requires
            q * b <= a < (q + 1) * b,
            b >= 1,
    ;
    assert(a < 0 ==> a <= q < 0) by (nonlinear_arith)
        requires
            q * b <= a < (q + 1) * b,
            b >= 1,
    ;
}

/// `ceil_div(a, b)` lies within one `b` above `a`.
pub proof fn lemma_ceil_div_bounds(a: int, b: int)
    requires
        b > 0,
    ensures
        (ceil_div(a, b) - 1) * b < a <= ceil_div(a, b) * b,
{
    lemma_floor_div_bounds(-a, b);
    let f = floor_div(-a, b);
    assert((-f) * b == -(f * b)) by (nonlinear_arith);
    assert((-f - 1) * b == -((f + 1) * b)) by (nonlinear_arith);
}

/// Divides `a` by a positive `b` and rounds down.
pub(crate) fn div_floor(a: i64, b: i64) -> (q: i64)
    requires
        b > 0,
    ensures
        q == floor_div(a as int, b as int),
{
    if a >= 0 {
        a / b
    } else {
        let m: i64 = -(a + 1);
        let q: i64 = -1 - m / b;
        proof {
            lemma_fundamental_div_mod(m as int, b as int);
            lemma_mod_bound(m as int, b as int);
            assert(b * (m / b) == (m / b) * b) by (nonlinear_arith);
            assert((-1 - m / b) * b == -b - (m / b) * b) by (nonlinear_arith);
            lemma_fundamental_div_mod_converse(
                a as int,
                b as int,
                -1 - m / b,
                b - 1 - (m % b),
            );
        }
        q
    }
}

/// Divides a non-negative `a` by a positive `b` and rounds up.
pub(crate) fn div_ceil(a: i64, b: i64) -> (q: i64)
    requires
        a >= 0,
        b > 0,
    ensures
        q == ceil_div(a as int, b as int),
        0 <= q <= a,
{
    let q: i64 = if a == 0 {
        0
    } else {
        (a - 1) / b + 1
    };
    proof {
        if a > 0 {
            let m = (a - 1) as int;
            lemma_fundamental_div_mod(m, b as int);
            lemma_mod_bound(m, b as int);
            assert(b * (m / (b as int)) == (m / (b as int)) * b) by (nonlinear_arith);
            assert((-(m / (b as int)) - 1) * b == -((m / (b as int)) * b) - b)
                by (nonlinear_arith);
            lemma_fundamental_div_mod_converse(
                -(a as int),
                b as int,
                -(m / (b as int)) - 1,
                b - 1 - (m % (b as int)),
            );
            assert(m / (b as int) <= m) by (nonlinear_arith)
                requires
                    m >= 0,
                    b >= 1,
                    m == b * (m / (b as int)) + m % (b as int),
                    0 <= m % (b as int),
            ;
        }
    }
    q
}

} // verus!
