//! Exact fixed-point scalar and vector arithmetic.
//!
//! All geometry in this crate is carried by `i128` values interpreted at a
//! caller-chosen resolution. Derived quantities (normals, quadrics, rotation
//! matrices) use explicit power-of-two scales so that every operation is an
//! exact integer computation whose rounding is part of its specification.

use vstd::prelude::*;

verus! {

/// Largest magnitude allowed for an input mesh coordinate.
pub const MAX_COORD: i128 = 65536;

/// Scale at which unit plane normals are represented: a unit vector has
/// components in `[-NORMAL_SCALE, NORMAL_SCALE]`.
pub const NORMAL_SCALE: i128 = 1024;

/// Scale at which rotation-matrix entries are represented.
pub const ROT_SCALE: i128 = 1048576;

/// Largest magnitude a coordinate may take while faces are being unfolded;
/// rounding during rotations may push points slightly past `MAX_COORD`.
pub const MAX_UNFOLD_COORD: i128 = 16777216;

/// Bounds `|a * b| <= am * bm` from bounds on the factors.
pub proof fn lemma_mul_bound(a: int, am: int, b: int, bm: int)
    by (nonlinear_arith)
    requires
        -am <= a <= am,
        -bm <= b <= bm,
    ensures
        -(am * bm) <= a * b <= am * bm,
{
}

/// Absolute value.
pub open spec fn iabs(x: int) -> int {
    if x < 0 {
        -x
    } else {
        x
    }
}

/// The smaller of two integers.
pub open spec fn imin(a: int, b: int) -> int {
    if a <= b {
        a
    } else {
        b
    }
}

/// The larger of two integers.
pub open spec fn imax(a: int, b: int) -> int {
    if a <= b {
        b
    } else {
        a
    }
}

/// Squares are nonnegative.
pub proof fn lemma_square_nonneg(t: int)
    by (nonlinear_arith)
    ensures
        t * t >= 0,
{
}

/// A component whose square is at most `nn` is bounded by the floor square
/// root of `nn`.
pub proof fn lemma_component_le_root(c: int, nn: int, len: int)
    by (nonlinear_arith)
    requires
        c * c <= nn,
        0 <= len,
        len * len <= nn,
        nn < (len + 1) * (len + 1),
    ensures
        -len <= c <= len,
{
}

/// Division truncating toward zero, the rounding used throughout this crate
/// when scaling a signed quantity down by a positive scale.
pub open spec fn div_tz(a: int, b: int) -> int {
    if a >= 0 {
        a / b
    } else {
        -((-a) / b)
    }
}

/// For a positive divisor, truncating division never grows the magnitude
/// beyond that of an upper bound on the dividend.
pub proof fn lemma_div_tz_bound(a: int, b: int, m: int)
    by (nonlinear_arith)
    requires
        0 < b,
        0 <= m,
        -m <= a <= m,
    ensures
        -m <= div_tz(a, b) <= m,
        b * div_tz(a, b) <= a + b,
        a - b < b * (div_tz(a, b) + 1),
{
}

/// A bound on the dividend in units of the divisor bounds the quotient.
pub proof fn lemma_div_tz_le(a: int, b: int, am: int)
    by (nonlinear_arith)
    requires
        0 < b,
        0 <= am,
        -(am * b) <= a <= am * b,
    ensures
        -am <= div_tz(a, b) <= am,
{
}

/// Scaling `a` by `s/b` keeps the result within `s` whenever `|a| <= b`.
pub proof fn lemma_div_tz_scale(a: int, b: int, s: int)
    by (nonlinear_arith)
    requires
        0 < b,
        0 <= s,
        -b <= a <= b,
    ensures
        -s <= div_tz(a * s, b) <= s,
{
}

/// Scaling up by `b` and dividing by `b` is exact.
pub proof fn lemma_div_tz_exact(x: int, b: int)
    by (nonlinear_arith)
    requires
        0 < b,
    ensures
        div_tz(x * b, b) == x,
        div_tz(b * x, b) == x,
{
}

/// Truncating division of `a` by positive `b`, computed on magnitudes.
pub fn div_i(a: i128, b: i128) -> (r: i128)
    requires
        0 < b,
        -0x4000_0000_0000_0000_0000_0000_0000_0000 < a
            < 0x4000_0000_0000_0000_0000_0000_0000_0000,
    ensures
        r == div_tz(a as int, b as int),
{
    if a >= 0 {
        let q = (a as u128) / (b as u128);
        proof {
            lemma_div_tz_bound(a as int, b as int, a as int);
        }
        q as i128
    } else {
        let q = ((-a) as u128) / (b as u128);
        proof {
            lemma_div_tz_bound(-(a as int), b as int, -(a as int));
        }
        -(q as i128)
    }
}

/// Floor of the square root, as a recursively defined specification value.
pub open spec fn sqrt_floor(n: nat) -> nat
    decreases n,
{
    if n == 0 {
        0
    } else {
        let p = sqrt_floor((n - 1) as nat);
        if (p + 1) * (p + 1) <= n {
            (p + 1) as nat
        } else {
            p
        }
    }
}

/// `sqrt_floor(n)` really is the floor of the square root of `n`.
pub proof fn lemma_sqrt_floor(n: nat)
    ensures
        sqrt_floor(n) * sqrt_floor(n) <= n,
        n < (sqrt_floor(n) + 1) * (sqrt_floor(n) + 1),
    decreases n,
{
    if n > 0 {
        lemma_sqrt_floor((n - 1) as nat);
        let p = sqrt_floor((n - 1) as nat);
        let s = sqrt_floor(n);
        if (p + 1) * (p + 1) <= n {
            assert(s == p + 1);
            assert(s * s <= n) by (nonlinear_arith)
                requires
                    s == p + 1,
                    (p + 1) * (p + 1) <= n,
            {
            }
            assert(n < (s + 1) * (s + 1)) by (nonlinear_arith)
                requires
                    s == p + 1,
                    (n - 1) < (p + 1) * (p + 1),
                    0 <= p,
            {
            }
        } else {
            assert(s == p);
            assert(s * s <= n) by (nonlinear_arith)
                requires
                    s == p,
                    p * p <= n - 1,
            {
            }
            assert(n < (s + 1) * (s + 1)) by (nonlinear_arith)
                requires
                    s == p,
                    !((p + 1) * (p + 1) <= n),
            {
            }
        }
        assert(s * s <= n);
        assert(n < (s + 1) * (s + 1));
    } else {
        let s = sqrt_floor(n);
        assert(s == 0);
        assert(n < (s + 1) * (s + 1)) by (nonlinear_arith)
            requires
                n == 0,
                s == 0,
        {
        }
    }
}

/// The floor square root is unique.
pub proof fn lemma_sqrt_floor_unique(n: nat, r: nat)
    requires
        r * r <= n,
        n < (r + 1) * (r + 1),
    ensures
        r == sqrt_floor(n),
{
    lemma_sqrt_floor(n);
    let s = sqrt_floor(n);
    assert(r == s) by (nonlinear_arith)
        requires
            r * r <= n,
            n < (r + 1) * (r + 1),
            s * s <= n,
            n < (s + 1) * (s + 1),
            0 <= r,
            0 <= s,
    {
    }
}

/// Floor of the square root, by binary search.
pub fn isqrt(n: i128) -> (r: i128)
    requires
        0 <= n < 0x4000_0000_0000_0000_0000_0000_0000,
    ensures
        r == sqrt_floor(n as nat),
        0 <= r <= 0x100_0000_0000_0000,
        r * r <= n < (r + 1) * (r + 1),
{
    let mut lo: i128 = 0;
    let mut hi: i128 = 0x100_0000_0000_0000;
    assert(hi * hi > n);
    while lo + 1 < hi
        invariant
            0 <= lo < hi <= 0x100_0000_0000_0000,
            lo * lo <= n,
            n < hi * hi,
        decreases hi - lo,
    {
        let mid = ((lo as u128 + hi as u128) / 2) as i128;
        assert(lo < mid < hi);
        proof {
            lemma_mul_bound(mid as int, 0x100_0000_0000_0000, mid as int,
                0x100_0000_0000_0000);
        }
        if mid * mid <= n {
            lo = mid;
        } else {
            hi = mid;
        }
    }
    proof {
        lemma_sqrt_floor_unique(n as nat, lo as nat);
    }
    lo
}

/// A point or direction in 3-space, in fixed-point coordinates.
#[derive(Clone, Copy, Debug, PartialEq, Eq, Structural)]
pub struct Vec3 {
    pub x: i128,
    pub y: i128,
    pub z: i128,
}

/// A point in the plane of a flattened face, in fixed-point coordinates.
#[derive(Clone, Copy, Debug, PartialEq, Eq, Structural)]
pub struct Vec2 {
    pub x: i128,
    pub y: i128,
}

/// A 3x3 matrix at scale `ROT_SCALE`: the identity has `ROT_SCALE` on the
/// diagonal. Applying it to a vector divides by the scale, rounding each
/// component toward zero.
#[derive(Clone, Copy, Debug, PartialEq, Eq, Structural)]
pub struct Mat3 {
    pub r00: i128,
    pub r01: i128,
    pub r02: i128,
    pub r10: i128,
    pub r11: i128,
    pub r12: i128,
    pub r20: i128,
    pub r21: i128,
    pub r22: i128,
}

/// The rounded application of `m` to `v`.
pub open spec fn mat3_apply_spec(m: Mat3, v: Vec3) -> (int, int, int) {
    (
        div_tz(m.r00 * v.x + m.r01 * v.y + m.r02 * v.z, ROT_SCALE as int),
        div_tz(m.r10 * v.x + m.r11 * v.y + m.r12 * v.z, ROT_SCALE as int),
        div_tz(m.r20 * v.x + m.r21 * v.y + m.r22 * v.z, ROT_SCALE as int),
    )
}

impl Mat3 {
    /// Every entry lies in `[-m, m]`.
    pub open spec fn bounded(self, m: int) -> bool {
        &&& -m <= self.r00 <= m
        &&& -m <= self.r01 <= m
        &&& -m <= self.r02 <= m
        &&& -m <= self.r10 <= m
        &&& -m <= self.r11 <= m
        &&& -m <= self.r12 <= m
        &&& -m <= self.r20 <= m
        &&& -m <= self.r21 <= m
        &&& -m <= self.r22 <= m
    }

    pub fn identity() -> (r: Mat3)
        ensures
            r == (Mat3 {
                r00: ROT_SCALE,
                r01: 0i128,
                r02: 0i128,
                r10: 0i128,
                r11: ROT_SCALE,
                r12: 0i128,
                r20: 0i128,
                r21: 0i128,
                r22: ROT_SCALE,
            }),
            r.bounded(ROT_SCALE as int),
    {
        Mat3 {
            r00: ROT_SCALE,
            r01: 0,
            r02: 0,
            r10: 0,
            r11: ROT_SCALE,
            r12: 0,
            r20: 0,
            r21: 0,
            r22: ROT_SCALE,
        }
    }

    /// The transpose, which for a rotation is its inverse.
    pub fn transpose(&self) -> (r: Mat3)
        ensures
            r.r00 == self.r00 && r.r01 == self.r10 && r.r02 == self.r20,
            r.r10 == self.r01 && r.r11 == self.r11 && r.r12 == self.r21,
            r.r20 == self.r02 && r.r21 == self.r12 && r.r22 == self.r22,
    {
        Mat3 {
            r00: self.r00,
            r01: self.r10,
            r02: self.r20,
            r10: self.r01,
            r11: self.r11,
            r12: self.r21,
            r20: self.r02,
            r21: self.r12,
            r22: self.r22,
        }
    }

    /// Applies the matrix to a vector, scaling back down; exact per
    /// `mat3_apply_spec`.
    pub fn apply(&self, v: &Vec3) -> (r: Vec3)
        requires
            self.bounded(4 * ROT_SCALE as int),
            v.bounded(4 * MAX_UNFOLD_COORD as int),
        ensures
            (r.x as int, r.y as int, r.z as int) == mat3_apply_spec(*self, *v),
            r.bounded(48 * MAX_UNFOLD_COORD as int),
    {
        proof {
            lemma_mul_bound(self.r00 as int, 0x40_0000, v.x as int, 0x400_0000);
            lemma_mul_bound(self.r01 as int, 0x40_0000, v.y as int, 0x400_0000);
            lemma_mul_bound(self.r02 as int, 0x40_0000, v.z as int, 0x400_0000);
            lemma_mul_bound(self.r10 as int, 0x40_0000, v.x as int, 0x400_0000);
            lemma_mul_bound(self.r11 as int, 0x40_0000, v.y as int, 0x400_0000);
            lemma_mul_bound(self.r12 as int, 0x40_0000, v.z as int, 0x400_0000);
            lemma_mul_bound(self.r20 as int, 0x40_0000, v.x as int, 0x400_0000);
            lemma_mul_bound(self.r21 as int, 0x40_0000, v.y as int, 0x400_0000);
            lemma_mul_bound(self.r22 as int, 0x40_0000, v.z as int, 0x400_0000);
            lemma_div_tz_le(
                self.r00 as int * v.x as int + self.r01 as int * v.y as int + self.r02 as int
                    * v.z as int,
                0x10_0000,
                0x3000_0000,
            );
            lemma_div_tz_le(
                self.r10 as int * v.x as int + self.r11 as int * v.y as int + self.r12 as int
                    * v.z as int,
                0x10_0000,
                0x3000_0000,
            );
            lemma_div_tz_le(
                self.r20 as int * v.x as int + self.r21 as int * v.y as int + self.r22 as int
                    * v.z as int,
                0x10_0000,
                0x3000_0000,
            );
        }
        let x = div_i(self.r00 * v.x + self.r01 * v.y + self.r02 * v.z, ROT_SCALE);
        let y = div_i(self.r10 * v.x + self.r11 * v.y + self.r12 * v.z, ROT_SCALE);
        let z = div_i(self.r20 * v.x + self.r21 * v.y + self.r22 * v.z, ROT_SCALE);
        Vec3 { x, y, z }
    }
}

/// The dot product, as a mathematical integer.
pub open spec fn dot_spec(u: Vec3, v: Vec3) -> int {
    u.x * v.x + u.y * v.y + u.z * v.z
}

/// The cross product, as mathematical integers.
pub open spec fn cross_spec(u: Vec3, v: Vec3) -> (int, int, int) {
    (u.y * v.z - u.z * v.y, u.z * v.x - u.x * v.z, u.x * v.y - u.y * v.x)
}

impl Vec3 {
    /// Every component lies in `[-m, m]`.
    pub open spec fn bounded(self, m: int) -> bool {
        &&& -m <= self.x <= m
        &&& -m <= self.y <= m
        &&& -m <= self.z <= m
    }

    pub open spec fn is_zero(self) -> bool {
        self.x == 0 && self.y == 0 && self.z == 0
    }

    pub fn new(x: i128, y: i128, z: i128) -> (r: Vec3)
        ensures
            r == (Vec3 { x, y, z }),
    {
        Vec3 { x, y, z }
    }

    pub fn zeros() -> (r: Vec3)
        ensures
            r == (Vec3 { x: 0i128, y: 0i128, z: 0i128 }),
    {
        Vec3 { x: 0, y: 0, z: 0 }
    }

    pub fn plus(&self, o: &Vec3) -> (r: Vec3)
        requires
            self.bounded(0x2000_0000_0000_0000_0000_0000_0000_0000),
            o.bounded(0x2000_0000_0000_0000_0000_0000_0000_0000),
        ensures
            r.x == self.x + o.x,
            r.y == self.y + o.y,
            r.z == self.z + o.z,
    {
        Vec3 { x: self.x + o.x, y: self.y + o.y, z: self.z + o.z }
    }

    pub fn minus(&self, o: &Vec3) -> (r: Vec3)
        requires
            self.bounded(0x2000_0000_0000_0000_0000_0000_0000_0000),
            o.bounded(0x2000_0000_0000_0000_0000_0000_0000_0000),
        ensures
            r.x == self.x - o.x,
            r.y == self.y - o.y,
            r.z == self.z - o.z,
    {
        Vec3 { x: self.x - o.x, y: self.y - o.y, z: self.z - o.z }
    }

    /// Dot product; the factor bound keeps the three partial products exact.
    pub fn dot(&self, o: &Vec3) -> (r: i128)
        requires
            self.bounded(0x1000_0000_0000_0000),
            o.bounded(0x1000_0000_0000_0000),
        ensures
            r == dot_spec(*self, *o),
    {
        proof {
            lemma_mul_bound(self.x as int, 0x1000_0000_0000_0000, o.x as int,
                0x1000_0000_0000_0000);
            lemma_mul_bound(self.y as int, 0x1000_0000_0000_0000, o.y as int,
                0x1000_0000_0000_0000);
            lemma_mul_bound(self.z as int, 0x1000_0000_0000_0000, o.z as int,
                0x1000_0000_0000_0000);
        }
        self.x * o.x + self.y * o.y + self.z * o.z
    }

    /// Cross product; exact under the same factor bound as `dot`.
    pub fn cross(&self, o: &Vec3) -> (r: Vec3)
        requires
            self.bounded(0x1000_0000_0000_0000),
            o.bounded(0x1000_0000_0000_0000),
        ensures
            (r.x as int, r.y as int, r.z as int) == cross_spec(*self, *o),
    {
        proof {
            lemma_mul_bound(self.y as int, 0x1000_0000_0000_0000, o.z as int,
                0x1000_0000_0000_0000);
            lemma_mul_bound(self.z as int, 0x1000_0000_0000_0000, o.y as int,
                0x1000_0000_0000_0000);
            lemma_mul_bound(self.z as int, 0x1000_0000_0000_0000, o.x as int,
                0x1000_0000_0000_0000);
            lemma_mul_bound(self.x as int, 0x1000_0000_0000_0000, o.z as int,
                0x1000_0000_0000_0000);
            lemma_mul_bound(self.x as int, 0x1000_0000_0000_0000, o.y as int,
                0x1000_0000_0000_0000);
            lemma_mul_bound(self.y as int, 0x1000_0000_0000_0000, o.x as int,
                0x1000_0000_0000_0000);
        }
        Vec3 {
            x: self.y * o.z - self.z * o.y,
            y: self.z * o.x - self.x * o.z,
            z: self.x * o.y - self.y * o.x,
        }
    }

    /// Squared Euclidean norm.
    pub fn norm_squared(&self) -> (r: i128)
        requires
            self.bounded(0x1000_0000_0000_0000),
        ensures
            r == dot_spec(*self, *self),
            r >= 0,
    {
        let r = self.dot(self);
        proof {
            lemma_mul_bound(self.x as int, 0x1000_0000_0000_0000, self.x as int,
                0x1000_0000_0000_0000);
            assert(self.x * self.x >= 0) by (nonlinear_arith);
            assert(self.y * self.y >= 0) by (nonlinear_arith);
            assert(self.z * self.z >= 0) by (nonlinear_arith);
        }
        r
    }
}

} // verus!
