//! Integer helpers shared by the protocols.

use vstd::prelude::*;

verus! {

/// Division by two that rounds toward zero, as Rust's `/` does on integers.
pub open spec fn trunc_half(x: int) -> int {
    if x >= 0 {
        x / 2
    } else {
        -((-x) / 2)
    }
}

/// The midpoint of two values, rounded toward zero: what `(a + b) / 2`
/// computes whenever the sum fits in the value's type.
pub open spec fn midpoint(a: int, b: int) -> int {
    trunc_half(a + b)
}

/// `(a + b) / 2` on signed values, computed without overflow.
pub fn mid_i64(a: i64, b: i64) -> (m: i64)
    ensures
        m == midpoint(a as int, b as int),
{
    let s: i128 = a as i128 + b as i128;
    let h: i128 = if s >= 0 {
        s / 2
    } else {
        let p: i128 = -s;
        -(p / 2)
    };
    h as i64
}

/// `(a + b) / 2` on unsigned values, computed without overflow.
pub fn mid_u64(a: u64, b: u64) -> (m: u64)
    ensures
        m == (a + b) / 2,
{
    let s: u128 = a as u128 + b as u128;
    (s / 2) as u64
}

/// The midpoint of two values lies between them.
pub proof fn lemma_midpoint_between(a: int, b: int)
    requires
        a <= b,
    ensures
        a <= midpoint(a, b) <= b,
{
}

} // verus!

verus! {

/// Division that rounds toward zero, as Rust's `/` does on integers.
pub open spec fn trunc_div(a: int, b: int) -> int {
    if (a >= 0) == (b > 0) {
        if a >= 0 { a / b } else { (-a) / (-b) }
    } else {
        if a >= 0 { -(a / (-b)) } else { -((-a) / b) }
    }
}

/// `a / b` on signed values, rounding toward zero.
pub fn div_i64(a: i64, b: i64) -> (q: i64)
    requires
        b != 0,
        !(a == i64::MIN && b == -1),
    ensures
        q == trunc_div(a as int, b as int),
{
    let x: i128 = a as i128;
    let y: i128 = b as i128;
    let q: i128 = if (x >= 0) == (y > 0) {
        if x >= 0 { x / y } else { let nx: i128 = -x; let ny: i128 = -y; nx / ny }
    } else {
        if x >= 0 { let ny: i128 = -y; -(x / ny) } else { let nx: i128 = -x; -(nx / y) }
    };
    proof {
        if x >= 0 {
            if y > 0 { lemma_div_bounds(x as int, y as int); } else { lemma_div_bounds(x as int, -y); }
        } else {
            if y > 0 { lemma_div_bounds(-x, y as int); } else {
                lemma_div_bounds(-x, -y);
                if y < -1 { lemma_div_strict(-x, -y); }
            }
        }
    }
    q as i64
}

proof fn lemma_div_bounds(a: int, b: int)
    by (nonlinear_arith)
    requires
        a >= 0,
        b > 0,
    ensures
        0 <= a / b <= a,
{
}

} // verus!

verus! {

proof fn lemma_div_strict(a: int, b: int)
    by (nonlinear_arith)
    requires
        a > 0,
        b > 1,
    ensures
        a / b < a,
{
}

} // verus!
