//! Fixed-point scalars.
//!
//! Every quantity of the camera (a coordinate, an angle in degrees, a number
//! of seconds, a speed) is an `i64` that counts millionths of its unit.
//! Results that leave the range of `i64` stick at the nearest end of it.

use vstd::prelude::*;

verus! {

/// The fixed-point representation of one.
pub const SCALE: i64 = 1_000_000;

/// The `i64` nearest to `x`.
pub open spec fn saturate(x: int) -> int {
    if x < i64::MIN {
        i64::MIN as int
    } else if x > i64::MAX {
        i64::MAX as int
    } else {
        x
    }
}

/// Whether `x` is in the range of `i64`, so that `saturate` leaves it alone.
pub open spec fn fits(x: int) -> bool {
    i64::MIN <= x <= i64::MAX
}

/// `n / d` rounded toward zero.
pub open spec fn quotient(n: int, d: int) -> int
    recommends
        d > 0,
{
    if n >= 0 {
        n / d
    } else {
        -((-n) / d)
    }
}

/// The exact product of two fixed-point numbers, rounded toward zero to a
/// whole number of millionths.
pub open spec fn product(a: int, b: int) -> int {
    quotient(a * b, SCALE as int)
}

/// The integer square root of `n`: the one `r >= 0` with `r² <= n < (r + 1)²`.
pub open spec fn root(n: int) -> int
    recommends
        n >= 0,
{
    choose|r: int| is_root(r, n)
}

/// Whether `r` is the integer square root of `n`.
pub open spec fn is_root(r: int, n: int) -> bool {
    0 <= r && r * r <= n && n < (r + 1) * (r + 1)
}

/// The absolute value of `x`.
pub open spec fn magnitude(x: int) -> int {
    if x >= 0 {
        x
    } else {
        -x
    }
}

/// Squaring is monotone on the non-negative integers.
pub proof fn lemma_square_monotone(a: int, b: int)
    requires
        0 <= a <= b,
    ensures
        a * a <= b * b,
{
    assert(a * a <= b * b) by (nonlinear_arith)
        requires
            0 <= a <= b,
    ;
}

/// A number has at most one integer square root, so `root` names it.
pub proof fn lemma_root_unique(r: int, n: int)
    requires
        is_root(r, n),
    ensures
        root(n) == r,
{
    let s = root(n);
    assert(is_root(s, n));
    if s < r {
        lemma_square_monotone(s + 1, r);
    }
    if r < s {
        lemma_square_monotone(r + 1, s);
    }
}

/// Every non-negative number has an integer square root.
pub proof fn lemma_root_exists(n: int)
    requires
        0 <= n,
    ensures
        is_root(root(n), n),
    decreases n,
{
    if n == 0 {
        assert(is_root(0, 0));
    } else {
        lemma_root_exists(n - 1);
        let r = root(n - 1);
        if n < (r + 1) * (r + 1) {
            assert(is_root(r, n));
        } else {
            assert((r + 2) * (r + 2) > (r + 1) * (r + 1)) by (nonlinear_arith)
                requires
                    0 <= r,
            ;
            assert(is_root(r + 1, n));
        }
    }
}

/// The root of `n` is at least `k` as soon as `n` is at least `k²`.
pub proof fn lemma_root_at_least(k: int, r: int, n: int)
    requires
        is_root(r, n),
        0 <= k,
        k * k <= n,
    ensures
        k <= r,
{
    if r < k {
        lemma_square_monotone(r + 1, k);
    }
}

/// Rounding toward zero never grows a magnitude, and a product with a factor
/// of at most one is no larger than the other factor.
pub proof fn lemma_product_bound(a: int, b: int)
    requires
        -(SCALE as int) <= b <= SCALE as int,
    ensures
        a >= 0 ==> -a <= product(a, b) <= a,
        a <= 0 ==> a <= product(a, b) <= -a,
{
    let k = SCALE as int;
    let m = if a >= 0 { a } else { -a };
    let p = a * b;
    assert(-(m * k) <= p <= m * k) by (nonlinear_arith)
        requires
            p == a * b,
            -k <= b <= k,
            k > 0,
            m == (if a >= 0 { a } else { -a }),
    ;
    let q = if p >= 0 { p } else { -p };
    assert(q / k <= m) by (nonlinear_arith)
        requires
            0 <= q <= m * k,
            k > 0,
    ;
}

/// Multiplying by one changes nothing.
pub proof fn lemma_product_one(a: int)
    ensures
        product(a, SCALE as int) == a,
        product(SCALE as int, a) == a,
{
    let k = SCALE as int;
    assert(a * k == k * a) by (nonlinear_arith);
    if a >= 0 {
        assert((a * k) / k == a) by (nonlinear_arith)
            requires
                k > 0,
        ;
    } else {
        assert((-(a * k)) / k == -a) by (nonlinear_arith)
            requires
                k > 0,
        ;
    }
}

/// Rounding a product toward zero moves it by less than one millionth.
pub proof fn lemma_product_error(a: int, b: int)
    ensures
        -(SCALE - 1) <= SCALE * product(a, b) - a * b <= SCALE - 1,
        a * b >= 0 ==> SCALE * product(a, b) <= a * b,
        a * b <= 0 ==> SCALE * product(a, b) >= a * b,
{
    let k = SCALE as int;
    let p = a * b;
    if p >= 0 {
        assert(0 <= p - k * (p / k) <= k - 1) by (nonlinear_arith)
            requires
                k > 0,
        ;
    } else {
        let q = -p;
        assert(0 <= q - k * (q / k) <= k - 1) by (nonlinear_arith)
            requires
                k > 0,
        ;
        assert(k * (-(q / k)) == -(k * (q / k))) by (nonlinear_arith);
    }
}

/// Narrows a wide intermediate result to `i64`, sticking at the ends.
pub fn narrow(x: i128) -> (r: i64)
    ensures
        r == saturate(x as int),
{
    if x < i64::MIN as i128 {
        i64::MIN
    } else if x > i64::MAX as i128 {
        i64::MAX
    } else {
        x as i64
    }
}

/// The fixed-point product of `a` and `b` in full width: it cannot overflow.
pub fn wide_product(a: i64, b: i64) -> (r: i128)
    ensures
        r == product(a as int, b as int),
        -0x4000_0000_0000_0000_0000_0000_0000_0000 <= r <= 0x4000_0000_0000_0000_0000_0000_0000_0000,
{
    assert(-0x4000_0000_0000_0000_0000_0000_0000_0000 <= (a as int) * (b as int)
        <= 0x4000_0000_0000_0000_0000_0000_0000_0000) by (nonlinear_arith)
        requires
            -0x8000_0000_0000_0000 <= a <= 0x7fff_ffff_ffff_ffff,
            -0x8000_0000_0000_0000 <= b <= 0x7fff_ffff_ffff_ffff,
    ;
    let p: i128 = (a as i128) * (b as i128);
    p / (SCALE as i128)
}

/// `a + b`, saturating.
pub fn plus(a: i64, b: i64) -> (r: i64)
    ensures
        r == saturate(a + b),
{
    narrow(a as i128 + b as i128)
}

/// `a - b`, saturating.
pub fn minus(a: i64, b: i64) -> (r: i64)
    ensures
        r == saturate(a - b),
{
    narrow(a as i128 - b as i128)
}

/// The fixed-point product `a · b`, saturating.
pub fn times(a: i64, b: i64) -> (r: i64)
    ensures
        r == saturate(product(a as int, b as int)),
{
    narrow(wide_product(a, b))
}

/// `a + b · c` with a single rounding and a single saturation at the end.
pub fn plus_product(a: i64, b: i64, c: i64) -> (r: i64)
    ensures
        r == saturate(a + product(b as int, c as int)),
{
    narrow(a as i128 + wide_product(b, c))
}

/// The integer square root of `n`.
pub fn isqrt(n: u128) -> (r: u64)
    ensures
        is_root(r as int, n as int),
        r == root(n as int),
{
    let mut lo: u128 = 0;
    let mut hi: u128 = 0x1_0000_0000_0000_0000;
    assert(hi * hi == 0x1_0000_0000_0000_0000_0000_0000_0000_0000int) by (nonlinear_arith)
        requires
            hi == 0x1_0000_0000_0000_0000,
    ;
    while hi - lo > 1
        invariant
            lo < hi <= 0x1_0000_0000_0000_0000,
            lo * lo <= n,
            n < hi * hi,
        decreases hi - lo,
    {
        let mid: u128 = lo + (hi - lo) / 2;
        assert(mid * mid <= 0xffff_ffff_ffff_ffff_ffff_ffff_ffff_ffff) by (nonlinear_arith)
            requires
                0 <= mid <= 0xffff_ffff_ffff_ffff,
        ;
        if mid * mid <= n {
            lo = mid;
        } else {
            hi = mid;
        }
    }
    proof {
        lemma_root_unique(lo as int, n as int);
    }
    lo as u64
}

} // verus!
