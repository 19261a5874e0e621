//! Division towards zero, as the machine divides.
use vstd::prelude::*;

verus! {

/// The quotient of a division, rounded towards zero.
pub open spec fn quotient(a: int, b: int) -> int {
    if a >= 0 {
        a / b
    } else {
        -((-a) / b)
    }
}

/// What such a division leaves.
pub open spec fn remainder(a: int, b: int) -> int {
    if a >= 0 {
        a % b
    } else {
        -((-a) % b)
    }
}

pub fn quot(a: i64, b: i64) -> (r: i64)
    requires
        0 < b,
    ensures
        r == quotient(a as int, b as int),
{
    if a >= 0 {
        a / b
    } else {
        let m: i128 = -(a as i128);
        let q: i128 = m / (b as i128);
        assert(q <= m) by (nonlinear_arith)
            requires
                q == m / (b as int as i128),
                m > 0,
                b > 0,
        ;
        let n: i128 = -q;
        n as i64
    }
}

pub fn rem(a: i64, b: i64) -> (r: i64)
    requires
        0 < b,
    ensures
        r == remainder(a as int, b as int),
{
    if a >= 0 {
        a % b
    } else {
        let m: i128 = -(a as i128);
        let q: i128 = m % (b as i128);
        let n: i128 = -q;
        n as i64
    }
}

} // verus!
