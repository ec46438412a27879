//! Three-dimensional vectors of fixed-point numbers.

use vstd::prelude::*;
use crate::fixed::{
    is_root, isqrt, lemma_root_at_least, lemma_root_exists, lemma_square_monotone, magnitude,
    minus, plus, product, quotient, root, saturate, times, SCALE,
};

verus! {

/// The largest squared length whose product with `SCALE²` fits in 128 bits.
pub const FINE_LIMIT: u128 = 340_282_366_920_938_463_463_374_607;

/// A vector, or a point, in world space: `x` and `y` span the horizontal
/// plane and `z` points up.
#[derive(Clone, Copy, Debug, PartialEq, Eq, Structural)]
pub struct Vec3 {
    pub x: i64,
    pub y: i64,
    pub z: i64,
}

/// Three integers: the components of a vector after it has been magnified.
pub struct Triple {
    pub x: int,
    pub y: int,
    pub z: int,
}

impl Triple {
    /// The sum of the squares of the three.
    pub open spec fn norm_squared(self) -> int {
        self.x * self.x + self.y * self.y + self.z * self.z
    }
}

impl Vec3 {
    /// The square of the vector's length, in units of 10⁻¹².
    pub open spec fn norm_squared(self) -> int {
        self.x * self.x + self.y * self.y + self.z * self.z
    }

    /// The componentwise saturating sum.
    pub open spec fn sum(self, other: Vec3) -> Vec3 {
        Vec3 {
            x: saturate(self.x + other.x) as i64,
            y: saturate(self.y + other.y) as i64,
            z: saturate(self.z + other.z) as i64,
        }
    }

    /// The componentwise saturating difference.
    pub open spec fn difference(self, other: Vec3) -> Vec3 {
        Vec3 {
            x: saturate(self.x - other.x) as i64,
            y: saturate(self.y - other.y) as i64,
            z: saturate(self.z - other.z) as i64,
        }
    }

    /// Every component multiplied by the fixed-point number `k`.
    pub open spec fn scaling(self, k: i64) -> Vec3 {
        Vec3 {
            x: saturate(product(self.x as int, k as int)) as i64,
            y: saturate(product(self.y as int, k as int)) as i64,
            z: saturate(product(self.z as int, k as int)) as i64,
        }
    }

    /// The factor by which the vector is magnified before its length is
    /// taken: a million, unless the squared length would then no longer fit
    /// in 128 bits.
    pub open spec fn grain(self) -> int {
        if self.norm_squared() <= FINE_LIMIT {
            SCALE as int
        } else {
            1
        }
    }

    /// The vector with every component multiplied by its grain.
    pub open spec fn magnified(self) -> Triple {
        let m = self.grain();
        Triple { x: self.x * m, y: self.y * m, z: self.z * m }
    }

    /// Every component divided by the vector's length: with `w` the
    /// magnified vector and `n` the integer square root of `|w|²`, each
    /// component of `w`, in millionths of `n`, rounded toward zero.
    pub open spec fn unit(self) -> Vec3 {
        let w = self.magnified();
        let n = root(w.norm_squared());
        Vec3 {
            x: quotient(w.x * SCALE, n) as i64,
            y: quotient(w.y * SCALE, n) as i64,
            z: quotient(w.z * SCALE, n) as i64,
        }
    }

    pub fn new(x: i64, y: i64, z: i64) -> (v: Vec3)
        ensures
            v == (Vec3 { x, y, z }),
    {
        Vec3 { x, y, z }
    }

    /// `self + other`.
    pub fn plus(self, other: Vec3) -> (r: Vec3)
        ensures
            r == self.sum(other),
    {
        Vec3 { x: plus(self.x, other.x), y: plus(self.y, other.y), z: plus(self.z, other.z) }
    }

    /// `self - other`.
    pub fn minus(self, other: Vec3) -> (r: Vec3)
        ensures
            r == self.difference(other),
    {
        Vec3 { x: minus(self.x, other.x), y: minus(self.y, other.y), z: minus(self.z, other.z) }
    }

    /// `self · k`.
    pub fn scaled(self, k: i64) -> (r: Vec3)
        ensures
            r == self.scaling(k),
    {
        Vec3 { x: times(self.x, k), y: times(self.y, k), z: times(self.z, k) }
    }

    /// The vector of length one that points the same way. Each component is
    /// rounded toward zero, which leaves the length within four millionths
    /// of one.
    pub fn normalized(self) -> (r: Vec3)
        requires
            self.norm_squared() > 0,
        ensures
            r == self.unit(),
            -SCALE <= r.x <= SCALE,
            -SCALE <= r.y <= SCALE,
            -SCALE <= r.z <= SCALE,
            (SCALE - 4) * (SCALE - 4) <= r.norm_squared() <= (SCALE + 1) * (SCALE + 1),
    {
        proof {
            lemma_square_range(self.x as int);
            lemma_square_range(self.y as int);
            lemma_square_range(self.z as int);
            lemma_unit_length(self);
            lemma_magnified(self);
        }
        let xx: i128 = (self.x as i128) * (self.x as i128);
        let yy: i128 = (self.y as i128) * (self.y as i128);
        let zz: i128 = (self.z as i128) * (self.z as i128);
        let s: u128 = xx as u128 + yy as u128 + zz as u128;
        let m: i128 = if s <= FINE_LIMIT {
            SCALE as i128
        } else {
            1
        };
        let n: u64 = isqrt(s * ((m * m) as u128));
        proof {
            let w = self.magnified();
            lemma_root_at_least(1, n as int, w.norm_squared());
            assert(w.x * w.x <= w.norm_squared() && w.y * w.y <= w.norm_squared() && w.z * w.z
                <= w.norm_squared()) by (nonlinear_arith)
                requires
                    w.norm_squared() == w.x * w.x + w.y * w.y + w.z * w.z,
            ;
            lemma_unit_component(w.x, n as int, w.norm_squared());
            lemma_unit_component(w.y, n as int, w.norm_squared());
            lemma_unit_component(w.z, n as int, w.norm_squared());
        }
        Vec3 {
            x: ((self.x as i128) * m * (SCALE as i128) / (n as i128)) as i64,
            y: ((self.y as i128) * m * (SCALE as i128) / (n as i128)) as i64,
            z: ((self.z as i128) * m * (SCALE as i128) / (n as i128)) as i64,
        }
    }
}

/// The square of an `i64` fits in 127 bits.
proof fn lemma_square_range(x: int)
    requires
        -0x8000_0000_0000_0000 <= x <= 0x7fff_ffff_ffff_ffff,
    ensures
        0 <= x * x <= 0x4000_0000_0000_0000_0000_0000_0000_0000,
{
    assert(0 <= x * x <= 0x4000_0000_0000_0000_0000_0000_0000_0000) by (nonlinear_arith)
        requires
            -0x8000_0000_0000_0000 <= x <= 0x7fff_ffff_ffff_ffff,
    ;
}

/// A vector other than zero, once magnified, has a squared length of the
/// grain squared times its own, which fits in 128 bits and is at least a
/// million squared; no component is longer than 2⁶³ · 10⁶.
proof fn lemma_magnified(v: Vec3)
    requires
        v.norm_squared() > 0,
    ensures
        v.magnified().norm_squared() == v.norm_squared() * (v.grain() * v.grain()),
        SCALE * SCALE <= v.magnified().norm_squared() <= u128::MAX,
        v.grain() * v.grain() == 1 || v.grain() * v.grain() == 1_000_000_000_000,
        -0x8000_0000_0000_0000 * SCALE <= v.magnified().x <= 0x8000_0000_0000_0000 * SCALE,
        -0x8000_0000_0000_0000 * SCALE <= v.magnified().y <= 0x8000_0000_0000_0000 * SCALE,
        -0x8000_0000_0000_0000 * SCALE <= v.magnified().z <= 0x8000_0000_0000_0000 * SCALE,
        v.x == 0 ==> v.magnified().x == 0,
        v.y == 0 ==> v.magnified().y == 0,
        v.z == 0 ==> v.magnified().z == 0,
{
    let s = v.norm_squared();
    let m = v.grain();
    let w = v.magnified();
    lemma_square_range(v.x as int);
    lemma_square_range(v.y as int);
    lemma_square_range(v.z as int);
    assert(w.norm_squared() == s * (m * m)) by (nonlinear_arith)
        requires
            w.norm_squared() == (v.x * m) * (v.x * m) + (v.y * m) * (v.y * m) + (v.z * m) * (v.z
                * m),
            s == v.x * v.x + v.y * v.y + v.z * v.z,
    ;
    if m == 1 {
        assert(s * (m * m) == s) by (nonlinear_arith)
            requires
                m == 1,
        ;
    } else {
        assert(m * m == 1_000_000_000_000) by (nonlinear_arith)
            requires
                m == 1_000_000,
        ;
        assert(1_000_000_000_000 <= s * 1_000_000_000_000 <= FINE_LIMIT * 1_000_000_000_000)
            by (nonlinear_arith)
            requires
                1 <= s <= FINE_LIMIT,
        ;
    }
    assert(w.x == v.x * 1_000_000 || w.x == v.x) by (nonlinear_arith)
        requires
            w.x == v.x * m,
            m == 1 || m == 1_000_000,
    ;
    assert(w.y == v.y * 1_000_000 || w.y == v.y) by (nonlinear_arith)
        requires
            w.y == v.y * m,
            m == 1 || m == 1_000_000,
    ;
    assert(w.z == v.z * 1_000_000 || w.z == v.z) by (nonlinear_arith)
        requires
            w.z == v.z * m,
            m == 1 || m == 1_000_000,
    ;
}

/// A component `x` of a vector whose squared length is `s`, with root `n`,
/// scales to a value between minus one and one, whose magnitude is the
/// floor of `|x| / n` in millionths.
proof fn lemma_unit_component(x: int, n: int, s: int)
    requires
        is_root(n, s),
        n > 0,
        x * x <= s,
    ensures
        magnitude(x) <= n,
        -SCALE <= quotient(x * SCALE, n) <= SCALE,
        magnitude(quotient(x * SCALE, n)) == magnitude(x) * SCALE / n,
        -SCALE * n <= x * SCALE <= SCALE * n,
        x == 0 ==> quotient(x * SCALE, n) == 0,
{
    let a = magnitude(x);
    let k = SCALE as int;
    assert(a * a == x * x) by (nonlinear_arith)
        requires
            a == x || a == -x,
    ;
    lemma_root_at_least(a, n, s);
    assert(0 <= a * k <= n * k) by (nonlinear_arith)
        requires
            0 <= a <= n,
            k > 0,
    ;
    assert((a * k) / n <= k) by (nonlinear_arith)
        requires
            0 <= a * k <= n * k,
            n > 0,
    ;
    assert(0 <= (a * k) / n) by (nonlinear_arith)
        requires
            0 <= a * k,
            n > 0,
    ;
    assert(x * k == a * k || x * k == -(a * k)) by (nonlinear_arith)
        requires
            a == x || a == -x,
    ;
    assert(k * n == n * k) by (nonlinear_arith);
    assert(0int / n == 0) by (nonlinear_arith)
        requires
            n > 0,
    ;
}

/// With `b` the floor of `a·k / n`: `b·n <= a·k < (b + 1)·n`, squared.
proof fn lemma_floor_squares(a: int, n: int, k: int) -> (b: int)
    requires
        0 <= a,
        0 < n,
        0 < k,
    ensures
        b == a * k / n,
        0 <= b,
        (b * b) * (n * n) <= (a * a) * (k * k),
        (a * a) * (k * k) < ((b + 1) * (b + 1)) * (n * n),
{
    let p = a * k;
    let b = p / n;
    assert(0 <= p) by (nonlinear_arith)
        requires
            p == a * k,
            0 <= a,
            0 < k,
    ;
    assert(0 <= b && b * n <= p && p < (b + 1) * n) by (nonlinear_arith)
        requires
            b == p / n,
            0 <= p,
            0 < n,
    ;
    let lo = b * n;
    let hi = (b + 1) * n;
    assert(0 <= lo) by (nonlinear_arith)
        requires
            lo == b * n,
            0 <= b,
            0 < n,
    ;
    assert(lo * lo <= p * p && p * p < hi * hi) by (nonlinear_arith)
        requires
            0 <= lo <= p,
            p < hi,
    ;
    assert(lo * lo == (b * b) * (n * n)) by (nonlinear_arith)
        requires
            lo == b * n,
    ;
    assert(hi * hi == ((b + 1) * (b + 1)) * (n * n)) by (nonlinear_arith)
        requires
            hi == (b + 1) * n,
    ;
    assert(p * p == (a * a) * (k * k)) by (nonlinear_arith)
        requires
            p == a * k,
    ;
    b
}

/// Dividing three integers by the root `n` of the sum of their squares, in
/// millionths rounded toward zero, gives three numbers whose squares sum to
/// one within four millionths, provided `n` is at least a million.
proof fn lemma_quotients_length(w: Triple, n: int) -> (u: Triple)
    requires
        is_root(n, w.norm_squared()),
        SCALE <= n,
    ensures
        u.x == quotient(w.x * SCALE, n),
        u.y == quotient(w.y * SCALE, n),
        u.z == quotient(w.z * SCALE, n),
        -SCALE <= u.x <= SCALE,
        -SCALE <= u.y <= SCALE,
        -SCALE <= u.z <= SCALE,
        w.x == 0 ==> u.x == 0,
        w.y == 0 ==> u.y == 0,
        w.z == 0 ==> u.z == 0,
        (SCALE - 4) * (SCALE - 4) <= u.norm_squared() <= (SCALE + 1) * (SCALE + 1),
{
    let k = SCALE as int;
    let s = w.norm_squared();
    let u = Triple {
        x: quotient(w.x * SCALE, n),
        y: quotient(w.y * SCALE, n),
        z: quotient(w.z * SCALE, n),
    };
    let (ax, ay, az) = (magnitude(w.x), magnitude(w.y), magnitude(w.z));
    assert(w.x * w.x <= s && w.y * w.y <= s && w.z * w.z <= s) by (nonlinear_arith)
        requires
            s == w.x * w.x + w.y * w.y + w.z * w.z,
    ;
    lemma_unit_component(w.x, n, s);
    lemma_unit_component(w.y, n, s);
    lemma_unit_component(w.z, n, s);
    let bx = lemma_floor_squares(ax, n, k);
    let by = lemma_floor_squares(ay, n, k);
    let bz = lemma_floor_squares(az, n, k);
    assert(magnitude(u.x) == bx && magnitude(u.y) == by && magnitude(u.z) == bz);
    let l = u.norm_squared();
    assert(l == bx * bx + by * by + bz * bz) by (nonlinear_arith)
        requires
            l == u.x * u.x + u.y * u.y + u.z * u.z,
            bx == u.x || bx == -u.x,
            by == u.y || by == -u.y,
            bz == u.z || bz == -u.z,
    ;
    assert(s == ax * ax + ay * ay + az * az) by (nonlinear_arith)
        requires
            s == w.x * w.x + w.y * w.y + w.z * w.z,
            ax == w.x || ax == -w.x,
            ay == w.y || ay == -w.y,
            az == w.z || az == -w.z,
    ;
    let nn = n * n;
    let kk = k * k;
    assert(nn > 0) by (nonlinear_arith)
        requires
            nn == n * n,
            n > 0,
    ;
    // From above: the root is rounded down by less than one part in `n`.
    assert(l * nn <= s * kk) by (nonlinear_arith)
        requires
            l == bx * bx + by * by + bz * bz,
            s == ax * ax + ay * ay + az * az,
            (bx * bx) * nn <= (ax * ax) * kk,
            (by * by) * nn <= (ay * ay) * kk,
            (bz * bz) * nn <= (az * az) * kk,
    ;
    let top = (k + 1) * n;
    let mid = k * (n + 1);
    assert(0 <= mid <= top) by (nonlinear_arith)
        requires
            mid == k * (n + 1),
            top == (k + 1) * n,
            k <= n,
            k > 0,
    ;
    lemma_square_monotone(mid, top);
    assert(s * kk < mid * mid) by (nonlinear_arith)
        requires
            s < (n + 1) * (n + 1),
            kk == k * k,
            k > 0,
            mid == k * (n + 1),
    ;
    assert(top * top == ((k + 1) * (k + 1)) * nn) by (nonlinear_arith)
        requires
            top == (k + 1) * n,
            nn == n * n,
    ;
    assert(l < (k + 1) * (k + 1)) by (nonlinear_arith)
        requires
            l * nn < ((k + 1) * (k + 1)) * nn,
            nn > 0,
    ;
    // From below: each component loses less than one millionth.
    let m = (bx + 1) * (bx + 1) + (by + 1) * (by + 1) + (bz + 1) * (bz + 1);
    assert(s * kk < m * nn) by (nonlinear_arith)
        requires
            m == (bx + 1) * (bx + 1) + (by + 1) * (by + 1) + (bz + 1) * (bz + 1),
            s == ax * ax + ay * ay + az * az,
            (ax * ax) * kk < ((bx + 1) * (bx + 1)) * nn,
            (ay * ay) * kk < ((by + 1) * (by + 1)) * nn,
            (az * az) * kk < ((bz + 1) * (bz + 1)) * nn,
    ;
    assert(nn * kk <= s * kk) by (nonlinear_arith)
        requires
            nn <= s,
            kk == k * k,
    ;
    assert(kk < m) by (nonlinear_arith)
        requires
            nn * kk < m * nn,
            nn > 0,
    ;
    assert(m == l + 2 * (bx + by + bz) + 3) by (nonlinear_arith)
        requires
            m == (bx + 1) * (bx + 1) + (by + 1) * (by + 1) + (bz + 1) * (bz + 1),
            l == bx * bx + by * by + bz * bz,
    ;
    u
}

/// The unit vector of any vector other than zero has a length of one to
/// within four millionths; its components lie between minus one and one,
/// and it has a zero wherever the vector has one.
pub proof fn lemma_unit_length(v: Vec3)
    requires
        v.norm_squared() > 0,
    ensures
        (SCALE - 4) * (SCALE - 4) <= v.unit().norm_squared() <= (SCALE + 1) * (SCALE + 1),
        -SCALE <= v.unit().x <= SCALE,
        -SCALE <= v.unit().y <= SCALE,
        -SCALE <= v.unit().z <= SCALE,
        v.x == 0 ==> v.unit().x == 0,
        v.y == 0 ==> v.unit().y == 0,
        v.z == 0 ==> v.unit().z == 0,
{
    lemma_magnified(v);
    let w = v.magnified();
    lemma_root_exists(w.norm_squared());
    let n = root(w.norm_squared());
    lemma_root_at_least(SCALE as int, n, w.norm_squared());
    let u = lemma_quotients_length(w, n);
    assert(v.unit().x == u.x && v.unit().y == u.y && v.unit().z == u.z);
    assert(v.unit().norm_squared() == u.norm_squared());
}

} // verus!
