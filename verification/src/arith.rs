//! Integer arithmetic helpers shared by the curve evaluator and the
//! composite combiner: division truncating toward zero, and bounds on
//! quotients.

use vstd::prelude::*;
use vstd::arithmetic::div_mod::lemma_div_is_ordered;
use vstd::arithmetic::div_mod::lemma_div_multiples_vanish;
use vstd::arithmetic::div_mod::lemma_div_pos_is_pos;
use vstd::arithmetic::div_mod::lemma_div_nonincreasing;

verus! {

/// Division truncating toward zero (the behaviour of Rust's `/` on
/// machine integers), expressed over mathematical integers.
pub open spec fn trunc_div(a: int, b: int) -> int
    recommends
        b > 0,
{
    if a >= 0 {
        a / b
    } else {
        -((-a) / b)
    }
}

/// A non-negative numerator bounded by `b * c` divides (by `c`) to at
/// most `b`.
pub proof fn lemma_div_bound(a: int, b: int, c: int)
    requires
        0 <= a,
        0 < c,
        a <= b * c,
    ensures
        a / c <= b,
{
    lemma_div_is_ordered(a, b * c, c);
    lemma_div_multiples_vanish(b, c);
    assert(b * c == c * b) by (nonlinear_arith);
}

/// A quotient of a value between `lo * b` and `hi * b` lies between `lo`
/// and `hi` when division truncates toward zero.
pub proof fn lemma_trunc_div_bounds(a: int, b: int, lo: int, hi: int)
    requires
        0 < b,
        lo * b <= a <= hi * b,
    ensures
        lo <= trunc_div(a, b) <= hi,
{
    if a >= 0 {
        lemma_div_bound(a, hi, b);
        lemma_div_pos_is_pos(a, b);
        if lo >= 0 {
            // lo <= (lo * b) / b <= a / b.
            lemma_div_multiples_vanish(lo, b);
            assert(lo * b == b * lo) by (nonlinear_arith);
            lemma_div_is_ordered(lo * b, a, b);
        }
    } else {
        // a < 0: trunc_div(a, b) == -((-a) / b), and lo must be negative.
        lemma_div_pos_is_pos(-a, b);
        assert(lo * b <= a < 0);
        assert(lo < 0) by (nonlinear_arith)
            requires
                0 < b,
                lo * b < 0,
        ;
        // -a <= (-lo) * b, so (-a) / b <= -lo, so trunc_div >= lo.
        assert(-a <= (-lo) * b) by (nonlinear_arith)
            requires
                lo * b <= a,
        ;
        lemma_div_bound(-a, -lo, b);
        // trunc_div(a, b) <= 0 <= hi or hi < 0; in either case the upper
        // bound holds because -((-a) / b) <= 0 and hi >= ... handle hi < 0.
        if hi >= 0 {
        } else {
            // a <= hi * b < 0; (-a) >= (-hi) * b, so (-a) / b >= -hi.
            assert((-hi) * b <= -a) by (nonlinear_arith)
                requires
                    a <= hi * b,
            ;
            lemma_div_multiples_vanish(-hi, b);
            assert((-hi) * b == b * (-hi)) by (nonlinear_arith);
            lemma_div_is_ordered((-hi) * b, -a, b);
        }
    }
}

/// Truncating division executed on 128-bit integers.
pub fn trunc_div_i128(a: i128, b: i128) -> (r: i128)
    requires
        b > 0,
        a > i128::MIN,
    ensures
        r == trunc_div(a as int, b as int),
{
    if a >= 0 {
        proof {
            lemma_div_nonincreasing(a as int, b as int);
            lemma_div_pos_is_pos(a as int, b as int);
        }
        ((a as u128) / (b as u128)) as i128
    } else {
        let m: u128 = (-a) as u128;
        proof {
            lemma_div_nonincreasing(m as int, b as int);
            lemma_div_pos_is_pos(m as int, b as int);
        }
        -((m / (b as u128)) as i128)
    }
}

} // verus!
