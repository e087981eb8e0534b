//! Fixed-point arithmetic: flooring division, products divided in one step,
//! integer square roots and the length of a vector.

use vstd::prelude::*;
use vstd::arithmetic::div_mod::{
    lemma_div_is_ordered, lemma_fundamental_div_mod, lemma_fundamental_div_mod_converse,
};

verus! {

/// Steps to one world unit: a length `v` stands for `v / UNIT` world units.
pub const UNIT: i64 = 65536;

/// The magnitude of `v`.
pub open spec fn abs(v: int) -> int {
    if v < 0 {
        -v
    } else {
        v
    }
}

/// `v`, held to the range of `i64`.
pub open spec fn clamp_i64(v: int) -> i64 {
    if v > i64::MAX {
        i64::MAX
    } else if v < i64::MIN {
        i64::MIN
    } else {
        v as i64
    }
}

/// `v`, held to the range of `u64`.
pub open spec fn clamp_u64(v: int) -> u64 {
    if v > u64::MAX {
        u64::MAX
    } else if v < 0 {
        0
    } else {
        v as u64
    }
}

/// The sum of two numbers, held to the range of `i64`.
pub fn clamped_add(a: i64, b: i64) -> (r: i64)
    ensures
        r == clamp_i64(a + b),
{
    match a.checked_add(b) {
        Some(r) => r,
        None => if b > 0 {
            i64::MAX
        } else {
            i64::MIN
        },
    }
}

/// `v`, held to the range of `i64`.
pub fn clamped(v: i128) -> (r: i64)
    ensures
        r == clamp_i64(v as int),
{
    if v > i64::MAX as i128 {
        i64::MAX
    } else if v < i64::MIN as i128 {
        i64::MIN
    } else {
        v as i64
    }
}

/// Dividing by a positive number brings no number farther from zero.
pub proof fn lemma_div_bound(n: int, d: int)
    requires
        d > 0,
    ensures
        abs(n / d) <= abs(n),
{
    let q = n / d;
    let r = n % d;
    lemma_fundamental_div_mod(n, d);
    assert(abs(q) <= abs(n)) by (nonlinear_arith)
        requires
            n == d * q + r,
            0 <= r < d,
            d > 0,
    ;
}

/// The magnitude of a product is bounded by the bounds of its factors.
pub proof fn lemma_product_bound(a: int, b: int, la: int, lb: int)
    requires
        abs(a) <= la,
        abs(b) <= lb,
    ensures
        abs(a * b) <= la * lb,
{
    assert(abs(a * b) <= la * lb) by (nonlinear_arith)
        requires
            abs(a) <= la,
            abs(b) <= lb,
    ;
}

/// A multiple of `d` divided by `d` is the factor.
pub proof fn lemma_div_exact(b: int, d: int)
    requires
        d > 0,
    ensures
        (b * d) / d == b,
{
    assert(b * d == b * d + 0);
    lemma_fundamental_div_mod_converse(b * d, d, b, 0);
}

/// A number between `-l * d` and `l * d`, divided by `d`, lies between `-l`
/// and `l`.
pub proof fn lemma_div_within(n: int, d: int, l: int)
    requires
        d > 0,
        -(l * d) <= n <= l * d,
    ensures
        -l <= n / d <= l,
{
    lemma_div_is_ordered(n, l * d, d);
    lemma_div_is_ordered(-(l * d), n, d);
    lemma_div_exact(l, d);
    lemma_div_exact(-l, d);
    assert(-(l * d) == (-l) * d) by (nonlinear_arith);
}

/// `r` is the square root of `n`, rounded down.
pub open spec fn is_sqrt_floor(n: int, r: int) -> bool {
    &&& 0 <= r
    &&& r * r <= n
    &&& n < (r + 1) * (r + 1)
}

/// The square root of `n`, rounded down (for `n >= 0`).
pub open spec fn sqrt_floor(n: int) -> int {
    choose|r: int| is_sqrt_floor(n, r)
}

/// The length of the vector `(x, y)`, rounded down.
pub open spec fn spec_magnitude(x: int, y: int) -> int {
    sqrt_floor(x * x + y * y)
}

proof fn lemma_sqrt_exists(n: int)
    requires
        0 <= n,
    ensures
        exists|r: int| is_sqrt_floor(n, r),
    decreases n,
{
    if n == 0 {
        assert(is_sqrt_floor(0, 0));
    } else {
        let m = n - 1;
        lemma_sqrt_exists(m);
        let r = choose|r: int| is_sqrt_floor(m, r);
        if n < (r + 1) * (r + 1) {
            assert(is_sqrt_floor(n, r));
        } else {
            assert((r + 1) * (r + 1) < (r + 2) * (r + 2)) by (nonlinear_arith)
                requires
                    0 <= r,
            ;
            assert(is_sqrt_floor(n, r + 1));
        }
    }
}

/// Every `n >= 0` has a rounded-down square root, and `sqrt_floor` is it.
pub proof fn lemma_sqrt_floor(n: int)
    requires
        0 <= n,
    ensures
        is_sqrt_floor(n, sqrt_floor(n)),
{
    lemma_sqrt_exists(n);
}

/// Squaring keeps the order of non-negative numbers.
pub proof fn lemma_square_le(a: int, b: int)
    requires
        0 <= a <= b,
    ensures
        a * a <= b * b,
{
    assert(a * a <= b * b) by (nonlinear_arith)
        requires
            0 <= a <= b,
    ;
}

/// The rounded-down square root is unique.
pub proof fn lemma_sqrt_unique(n: int, r: int)
    requires
        is_sqrt_floor(n, r),
    ensures
        sqrt_floor(n) == r,
{
    lemma_sqrt_floor(n);
    let s = sqrt_floor(n);
    if s < r {
        lemma_square_le(s + 1, r);
    } else if r < s {
        lemma_square_le(r + 1, s);
    }
}

/// A larger number has no smaller square root.
pub proof fn lemma_sqrt_monotone(a: int, b: int)
    requires
        0 <= a <= b,
    ensures
        sqrt_floor(a) <= sqrt_floor(b),
{
    lemma_sqrt_floor(a);
    lemma_sqrt_floor(b);
    let ra = sqrt_floor(a);
    let rb = sqrt_floor(b);
    if rb < ra {
        lemma_square_le(rb + 1, ra);
    }
}

/// The square root of a square is the number itself.
pub proof fn lemma_sqrt_of_square(r: int)
    requires
        0 <= r,
    ensures
        sqrt_floor(r * r) == r,
{
    assert(r * r < (r + 1) * (r + 1)) by (nonlinear_arith)
        requires
            0 <= r,
    ;
    lemma_sqrt_unique(r * r, r);
}

/// A vector is at least as long as its first component.
pub proof fn lemma_magnitude_lower(x: int, y: int)
    ensures
        spec_magnitude(x, y) >= x,
        spec_magnitude(x, y) >= -x,
        spec_magnitude(x, y) >= 0,
{
    let a = if x >= 0 { x } else { -x };
    assert(a * a == x * x) by (nonlinear_arith)
        requires
            a == x || a == -x,
    ;
    assert(0 <= y * y) by (nonlinear_arith);
    lemma_sqrt_of_square(a);
    lemma_sqrt_monotone(a * a, x * x + y * y);
}

/// `n / d` rounded down, for a positive `d`.
pub fn floor_div(n: i128, d: i128) -> (q: i128)
    requires
        d > 0,
    ensures
        q == n / d,
{
    if n >= 0 {
        n / d
    } else {
        // -(n + 1) is in 0 ..= i128::MAX
        let m: i128 = -(n + 1);
        let k: i128 = m / d;
        proof {
            let r = m % d;
            lemma_fundamental_div_mod(m as int, d as int);
            assert(n == (-k - 1) * d + (d - 1 - r)) by (nonlinear_arith)
                requires
                    m == d * k + r,
                    m == -(n + 1),
            ;
            lemma_fundamental_div_mod_converse(n as int, d as int, -k - 1, d - 1 - r);
        }
        -k - 1
    }
}

/// `a * b / c` rounded down, the product taken exactly.
pub fn mul_div(a: i64, b: i64, c: i64) -> (q: i128)
    requires
        c > 0,
    ensures
        q == (a * b) / (c as int),
{
    assert(-0x4000_0000_0000_0000_0000_0000_0000_0000 <= a * b
        <= 0x4000_0000_0000_0000_0000_0000_0000_0000) by (nonlinear_arith)
        requires
            -0x8000_0000_0000_0000 <= a <= 0x7fff_ffff_ffff_ffff,
            -0x8000_0000_0000_0000 <= b <= 0x7fff_ffff_ffff_ffff,
    ;
    let p: i128 = (a as i128) * (b as i128);
    floor_div(p, c as i128)
}

/// The square root of `n`, rounded down.
pub fn isqrt(n: u128) -> (r: u64)
    ensures
        r == sqrt_floor(n as int),
{
    let mut lo: u128 = 0;
    let mut hi: u128 = 0x1_0000_0000_0000_0000;
    assert(0x1_0000_0000_0000_0000 * 0x1_0000_0000_0000_0000 > u128::MAX) by (nonlinear_arith);
    while hi - lo > 1
        invariant
            lo < hi <= 0x1_0000_0000_0000_0000,
            lo * lo <= n < hi * hi,
        decreases hi - lo,
    {
        let mid: u128 = lo + (hi - lo) / 2;
        assert(mid * mid <= u128::MAX) by (nonlinear_arith)
            requires
                0 <= mid < 0x1_0000_0000_0000_0000,
        ;
        if mid * mid <= n {
            lo = mid;
        } else {
            hi = mid;
        }
    }
    proof {
        lemma_sqrt_unique(n as int, lo as int);
    }
    lo as u64
}

/// The length of the vector `(x, y)`, rounded down.
pub fn magnitude(x: i64, y: i64) -> (r: u64)
    ensures
        r == spec_magnitude(x as int, y as int),
{
    assert(0 <= x * x <= 0x4000_0000_0000_0000_0000_0000_0000_0000) by (nonlinear_arith)
        requires
            -0x8000_0000_0000_0000 <= x <= 0x7fff_ffff_ffff_ffff,
    ;
    assert(0 <= y * y <= 0x4000_0000_0000_0000_0000_0000_0000_0000) by (nonlinear_arith)
        requires
            -0x8000_0000_0000_0000 <= y <= 0x7fff_ffff_ffff_ffff,
    ;
    let xx: i128 = (x as i128) * (x as i128);
    let yy: i128 = (y as i128) * (y as i128);
    let sum: u128 = (xx as u128) + (yy as u128);
    isqrt(sum)
}

} // verus!
