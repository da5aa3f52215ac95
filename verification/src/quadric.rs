//! Symmetric 4x4 error quadrics.
//!
//! A quadric accumulates, for one vertex, the squared distances to the
//! supporting planes of its incident triangles. A plane is carried as a row
//! vector `(a, b, c, d)` whose normal part is scaled by `NORMAL_SCALE`; the
//! quadric is the outer product of that row with itself, and summing quadrics
//! of several planes is exact integer addition.

use vstd::prelude::*;

use crate::math::Vec3;
use crate::math::div_tz;
use crate::math::lemma_mul_bound;
use crate::math::lemma_div_tz_le;
use crate::math::lemma_square_nonneg;
use crate::math::MAX_COORD;

verus! {

/// Largest magnitude of a plane-row entry: the normal part is bounded by
/// `NORMAL_SCALE` and the offset by `3 * NORMAL_SCALE * MAX_COORD`, both
/// below 2^28.
pub const PLANE_MAX: i128 = 0x1000_0000;

/// Largest magnitude of an entry of a single face quadric: `PLANE_MAX^2`.
pub const FACE_QUADRIC_MAX: i128 = 0x100_0000_0000_0000;

/// Cap on an accumulated vertex quadric entry: `2^20` faces times
/// `FACE_QUADRIC_MAX`.
pub const QUADRIC_LIMIT: i128 = 0x1000_0000_0000_0000_0000;

/// Entry bound under which `eval` is exact: four times `QUADRIC_LIMIT`,
/// which covers any sum of two vertex quadrics.
pub const EVAL_LIMIT: i128 = 0x4000_0000_0000_0000_0000;

/// Entry bound under which the 3x3 system for the optimal contraction
/// position is solved exactly: the determinant of a 3x3 matrix with
/// entries below it still fits in an `i128`. A larger quadric is first
/// scaled down (the linear system is scale-invariant), and only a quadric
/// whose scaled determinant vanishes falls back to the midpoint.
pub const SOLVE_LIMIT: i128 = 0x100_0000_0000;

/// First scale-down divisor applied to an oversized quadric.
pub const SOLVE_SHIFT_SMALL: i128 = 0x10_0000;

/// Second scale-down divisor, under which any quadric bounded by
/// `EVAL_LIMIT` fits the exact solve.
pub const SOLVE_SHIFT_LARGE: i128 = 0x40_0000_0000;

/// A symmetric 4x4 matrix, stored as its upper triangle.
#[derive(Clone, Copy, Debug, PartialEq, Eq, Structural)]
pub struct SymetricMatrix {
    pub m00: i128,
    pub m01: i128,
    pub m02: i128,
    pub m03: i128,
    pub m11: i128,
    pub m12: i128,
    pub m13: i128,
    pub m22: i128,
    pub m23: i128,
    pub m33: i128,
}

/// Evaluation of the quadratic form at the homogeneous point `(x, y, z, 1)`.
pub open spec fn eval_spec(q: SymetricMatrix, x: int, y: int, z: int) -> int {
    q.m00 * x * x + 2 * (q.m01 * x * y) + 2 * (q.m02 * x * z) + 2 * (q.m03 * x) + q.m11 * y * y
        + 2 * (q.m12 * y * z) + 2 * (q.m13 * y) + q.m22 * z * z + 2 * (q.m23 * z) + q.m33
}

/// Positive semi-definiteness over the affine slice `w == 1`.
pub open spec fn is_psd(q: SymetricMatrix) -> bool {
    forall|x: int, y: int, z: int| eval_spec(q, x, y, z) >= 0
}

/// `q` is the entrywise sum of `a` and `b`.
pub open spec fn is_sum(q: SymetricMatrix, a: SymetricMatrix, b: SymetricMatrix) -> bool {
    &&& q.m00 == a.m00 + b.m00
    &&& q.m01 == a.m01 + b.m01
    &&& q.m02 == a.m02 + b.m02
    &&& q.m03 == a.m03 + b.m03
    &&& q.m11 == a.m11 + b.m11
    &&& q.m12 == a.m12 + b.m12
    &&& q.m13 == a.m13 + b.m13
    &&& q.m22 == a.m22 + b.m22
    &&& q.m23 == a.m23 + b.m23
    &&& q.m33 == a.m33 + b.m33
}

/// `q` is the outer product of the plane row `(a, b, c, d)` with itself.
pub open spec fn is_outer(q: SymetricMatrix, a: int, b: int, c: int, d: int) -> bool {
    &&& q.m00 == a * a
    &&& q.m01 == a * b
    &&& q.m02 == a * c
    &&& q.m03 == a * d
    &&& q.m11 == b * b
    &&& q.m12 == b * c
    &&& q.m13 == b * d
    &&& q.m22 == c * c
    &&& q.m23 == c * d
    &&& q.m33 == d * d
}

proof fn lemma_sq4(u: int, v: int, w: int, t: int)
    by (nonlinear_arith)
    ensures
        (u + v + w + t) * (u + v + w + t) == u * u + v * v + w * w + t * t + 2 * (u * v) + 2 * (u
            * w) + 2 * (u * t) + 2 * (v * w) + 2 * (v * t) + 2 * (w * t),
{
}

proof fn lemma_rearrange2(a: int, x: int, b: int, y: int)
    by (nonlinear_arith)
    ensures
        (a * x) * (b * y) == (a * b) * x * y,
{
}

proof fn lemma_rearrange1(a: int, x: int, d: int)
    by (nonlinear_arith)
    ensures
        (a * x) * d == (a * d) * x,
{
}

proof fn lemma_outer_expand(a: int, b: int, c: int, d: int, x: int, y: int, z: int)
    ensures
        (a * a) * x * x + 2 * ((a * b) * x * y) + 2 * ((a * c) * x * z) + 2 * ((a * d) * x) + (b
            * b) * y * y + 2 * ((b * c) * y * z) + 2 * ((b * d) * y) + (c * c) * z * z + 2 * ((c
            * d) * z) + (d * d) == (a * x + b * y + c * z + d) * (a * x + b * y + c * z + d),
{
    lemma_sq4(a * x, b * y, c * z, d);
    lemma_rearrange2(a, x, a, x);
    lemma_rearrange2(a, x, b, y);
    lemma_rearrange2(a, x, c, z);
    lemma_rearrange1(a, x, d);
    lemma_rearrange2(b, y, b, y);
    lemma_rearrange2(b, y, c, z);
    lemma_rearrange1(b, y, d);
    lemma_rearrange2(c, z, c, z);
    lemma_rearrange1(c, z, d);
}

proof fn lemma_outer_eval_nonneg(
    q: SymetricMatrix,
    a: int,
    b: int,
    c: int,
    d: int,
    x: int,
    y: int,
    z: int,
)
    requires
        is_outer(q, a, b, c, d),
    ensures
        eval_spec(q, x, y, z) >= 0,
{
    lemma_outer_expand(a, b, c, d, x, y, z);
    lemma_square_nonneg(a * x + b * y + c * z + d);
}

/// An outer-product quadric is positive semi-definite.
pub proof fn lemma_outer_psd(q: SymetricMatrix, a: int, b: int, c: int, d: int)
    requires
        is_outer(q, a, b, c, d),
    ensures
        is_psd(q),
{
    assert forall|x: int, y: int, z: int| eval_spec(q, x, y, z) >= 0 by {
        lemma_outer_eval_nonneg(q, a, b, c, d, x, y, z);
    }
}

proof fn lemma_distrib1(s: int, a: int, b: int, u: int)
    by (nonlinear_arith)
    requires
        s == a + b,
    ensures
        s * u == a * u + b * u,
{
}

proof fn lemma_distrib2(s: int, a: int, b: int, u: int, v: int)
    by (nonlinear_arith)
    requires
        s == a + b,
    ensures
        s * u * v == a * u * v + b * u * v,
{
}

proof fn lemma_eval_sum(
    q: SymetricMatrix,
    a: SymetricMatrix,
    b: SymetricMatrix,
    x: int,
    y: int,
    z: int,
)
    requires
        is_sum(q, a, b),
    ensures
        eval_spec(q, x, y, z) == eval_spec(a, x, y, z) + eval_spec(b, x, y, z),
{
    lemma_distrib2(q.m00 as int, a.m00 as int, b.m00 as int, x, x);
    lemma_distrib2(q.m01 as int, a.m01 as int, b.m01 as int, x, y);
    lemma_distrib2(q.m02 as int, a.m02 as int, b.m02 as int, x, z);
    lemma_distrib1(q.m03 as int, a.m03 as int, b.m03 as int, x);
    lemma_distrib2(q.m11 as int, a.m11 as int, b.m11 as int, y, y);
    lemma_distrib2(q.m12 as int, a.m12 as int, b.m12 as int, y, z);
    lemma_distrib1(q.m13 as int, a.m13 as int, b.m13 as int, y);
    lemma_distrib2(q.m22 as int, a.m22 as int, b.m22 as int, z, z);
    lemma_distrib1(q.m23 as int, a.m23 as int, b.m23 as int, z);
}

/// The sum of two positive semi-definite quadrics is positive semi-definite.
pub proof fn lemma_sum_psd(q: SymetricMatrix, a: SymetricMatrix, b: SymetricMatrix)
    requires
        is_sum(q, a, b),
        is_psd(a),
        is_psd(b),
    ensures
        is_psd(q),
{
    assert forall|x: int, y: int, z: int| eval_spec(q, x, y, z) >= 0 by {
        lemma_eval_sum(q, a, b, x, y, z);
        assert(eval_spec(a, x, y, z) >= 0);
        assert(eval_spec(b, x, y, z) >= 0);
    }
}

/// Product of a quadric entry and one coordinate, with its exactness bound.
fn qterm2(a: i128, b: i128) -> (r: i128)
    requires
        -EVAL_LIMIT <= a <= EVAL_LIMIT,
        -0x2_0000 <= b <= 0x2_0000,
    ensures
        r == a * b,
        -0x8_0000_0000_0000_0000_0000_0000 <= r <= 0x8_0000_0000_0000_0000_0000_0000,
{
    proof {
        lemma_mul_bound(a as int, EVAL_LIMIT as int, b as int, 0x2_0000);
    }
    a * b
}

/// Product of a quadric entry and two coordinates, with its exactness bound.
fn qterm3(a: i128, b: i128, c: i128) -> (r: i128)
    requires
        -EVAL_LIMIT <= a <= EVAL_LIMIT,
        -0x2_0000 <= b <= 0x2_0000,
        -0x2_0000 <= c <= 0x2_0000,
    ensures
        r == a * b * c,
        -0x10_0000_0000_0000_0000_0000_0000_0000 <= r
            <= 0x10_0000_0000_0000_0000_0000_0000_0000,
{
    proof {
        lemma_mul_bound(a as int, EVAL_LIMIT as int, b as int, 0x2_0000);
        lemma_mul_bound(a as int * b as int, 0x8_0000_0000_0000_0000_0000_0000, c as int,
            0x2_0000);
    }
    a * b * c
}

/// Product of two entries of a solve-sized quadric.
fn sterm(a: i128, b: i128) -> (r: i128)
    requires
        -SOLVE_LIMIT <= a <= SOLVE_LIMIT,
        -SOLVE_LIMIT <= b <= SOLVE_LIMIT,
    ensures
        r == a * b,
        -0x10000_0000_0000_0000_0000 <= r <= 0x10000_0000_0000_0000_0000,
{
    proof {
        lemma_mul_bound(a as int, SOLVE_LIMIT as int, b as int, SOLVE_LIMIT as int);
    }
    a * b
}

/// Product of a solve-sized entry and a cofactor.
fn dterm(a: i128, c: i128) -> (r: i128)
    requires
        -SOLVE_LIMIT <= a <= SOLVE_LIMIT,
        -0x20000_0000_0000_0000_0000 <= c <= 0x20000_0000_0000_0000_0000,
    ensures
        r == a * c,
        -0x200_0000_0000_0000_0000_0000_0000_0000 <= r
            <= 0x200_0000_0000_0000_0000_0000_0000_0000,
{
    proof {
        lemma_mul_bound(a as int, SOLVE_LIMIT as int, c as int,
            0x20000_0000_0000_0000_0000);
    }
    a * c
}

/// The entrywise sum, as a specification value; meaningful when the sums
/// stay in range, which every caller in this crate proves.
pub open spec fn mat_sum_spec(a: SymetricMatrix, b: SymetricMatrix) -> SymetricMatrix {
    SymetricMatrix {
        m00: (a.m00 + b.m00) as i128,
        m01: (a.m01 + b.m01) as i128,
        m02: (a.m02 + b.m02) as i128,
        m03: (a.m03 + b.m03) as i128,
        m11: (a.m11 + b.m11) as i128,
        m12: (a.m12 + b.m12) as i128,
        m13: (a.m13 + b.m13) as i128,
        m22: (a.m22 + b.m22) as i128,
        m23: (a.m23 + b.m23) as i128,
        m33: (a.m33 + b.m33) as i128,
    }
}

/// Cofactors of the top-left 3x3 block.
pub open spec fn c00_spec(q: SymetricMatrix) -> int {
    q.m11 * q.m22 - q.m12 * q.m12
}

pub open spec fn c01_spec(q: SymetricMatrix) -> int {
    -(q.m01 * q.m22 - q.m12 * q.m02)
}

pub open spec fn c02_spec(q: SymetricMatrix) -> int {
    q.m01 * q.m12 - q.m11 * q.m02
}

pub open spec fn c11_spec(q: SymetricMatrix) -> int {
    q.m00 * q.m22 - q.m02 * q.m02
}

pub open spec fn c12_spec(q: SymetricMatrix) -> int {
    -(q.m00 * q.m12 - q.m01 * q.m02)
}

pub open spec fn c22_spec(q: SymetricMatrix) -> int {
    q.m00 * q.m11 - q.m01 * q.m01
}

/// Determinant of the top-left 3x3 block.
pub open spec fn det3_spec(q: SymetricMatrix) -> int {
    q.m00 * c00_spec(q) + q.m01 * c01_spec(q) + q.m02 * c02_spec(q)
}

/// Numerators of Cramer's rule applied to the system `A p == -b`, with `A`
/// the top-left 3x3 block and `b` the fourth column of the quadric.
pub open spec fn sol_x_num_spec(q: SymetricMatrix) -> int {
    -(q.m03 * c00_spec(q) + q.m13 * c01_spec(q) + q.m23 * c02_spec(q))
}

pub open spec fn sol_y_num_spec(q: SymetricMatrix) -> int {
    -(q.m03 * c01_spec(q) + q.m13 * c11_spec(q) + q.m23 * c12_spec(q))
}

pub open spec fn sol_z_num_spec(q: SymetricMatrix) -> int {
    -(q.m03 * c02_spec(q) + q.m13 * c12_spec(q) + q.m23 * c22_spec(q))
}

/// Signed truncating quotient of the two Cramer terms.
pub open spec fn cramer_spec(num: int, det: int) -> int {
    if det > 0 {
        div_tz(num, det)
    } else {
        div_tz(-num, -det)
    }
}

/// The midpoint of two points, each coordinate rounded toward zero.
pub open spec fn midpoint_spec(p1: Vec3, p2: Vec3) -> (int, int, int) {
    (div_tz(p1.x + p2.x, 2), div_tz(p1.y + p2.y, 2), div_tz(p1.z + p2.z, 2))
}

/// `q` with every entry divided by `d`, rounding toward zero.
pub open spec fn shifted_spec(q: SymetricMatrix, d: int) -> SymetricMatrix {
    SymetricMatrix {
        m00: div_tz(q.m00 as int, d) as i128,
        m01: div_tz(q.m01 as int, d) as i128,
        m02: div_tz(q.m02 as int, d) as i128,
        m03: div_tz(q.m03 as int, d) as i128,
        m11: div_tz(q.m11 as int, d) as i128,
        m12: div_tz(q.m12 as int, d) as i128,
        m13: div_tz(q.m13 as int, d) as i128,
        m22: div_tz(q.m22 as int, d) as i128,
        m23: div_tz(q.m23 as int, d) as i128,
        m33: div_tz(q.m33 as int, d) as i128,
    }
}

/// The quadric actually solved: `q` itself when its entries fit the exact
/// determinant, otherwise `q` scaled down just far enough. Scaling both
/// the matrix and the right-hand side of `A p == -b` leaves the solution
/// unchanged up to the rounding of the discarded low bits.
pub open spec fn solve_quadric_spec(q: SymetricMatrix) -> SymetricMatrix {
    if q.solve_bounded(SOLVE_LIMIT as int) {
        q
    } else {
        let q1 = shifted_spec(q, SOLVE_SHIFT_SMALL as int);
        if q1.solve_bounded(SOLVE_LIMIT as int) {
            q1
        } else {
            shifted_spec(q, SOLVE_SHIFT_LARGE as int)
        }
    }
}

/// Whether the exact 3x3 solve applies to `q`: the (possibly scaled)
/// determinant is nonzero and the solution lies within the coordinate
/// range.
pub open spec fn solvable_spec(q: SymetricMatrix) -> bool {
    let qs = solve_quadric_spec(q);
    &&& det3_spec(qs) != 0
    &&& -MAX_COORD <= cramer_spec(sol_x_num_spec(qs), det3_spec(qs)) <= MAX_COORD
    &&& -MAX_COORD <= cramer_spec(sol_y_num_spec(qs), det3_spec(qs)) <= MAX_COORD
    &&& -MAX_COORD <= cramer_spec(sol_z_num_spec(qs), det3_spec(qs)) <= MAX_COORD
}

/// The position minimizing the quadric error: the exact solve when it
/// applies, otherwise the midpoint fallback.
pub open spec fn optimal_position_spec(q: SymetricMatrix, p1: Vec3, p2: Vec3) -> (int, int, int) {
    let qs = solve_quadric_spec(q);
    if solvable_spec(q) {
        (
            cramer_spec(sol_x_num_spec(qs), det3_spec(qs)),
            cramer_spec(sol_y_num_spec(qs), det3_spec(qs)),
            cramer_spec(sol_z_num_spec(qs), det3_spec(qs)),
        )
    } else {
        midpoint_spec(p1, p2)
    }
}

impl SymetricMatrix {
    /// Every entry used by the 3x3 solve (all but `m33`, which only
    /// contributes a constant to the error) lies in `[-m, m]`.
    pub open spec fn solve_bounded(self, m: int) -> bool {
        &&& -m <= self.m00 <= m
        &&& -m <= self.m01 <= m
        &&& -m <= self.m02 <= m
        &&& -m <= self.m03 <= m
        &&& -m <= self.m11 <= m
        &&& -m <= self.m12 <= m
        &&& -m <= self.m13 <= m
        &&& -m <= self.m22 <= m
        &&& -m <= self.m23 <= m
    }

    /// Every entry lies in `[-m, m]`.
    pub open spec fn bounded(self, m: int) -> bool {
        &&& -m <= self.m00 <= m
        &&& -m <= self.m01 <= m
        &&& -m <= self.m02 <= m
        &&& -m <= self.m03 <= m
        &&& -m <= self.m11 <= m
        &&& -m <= self.m12 <= m
        &&& -m <= self.m13 <= m
        &&& -m <= self.m22 <= m
        &&& -m <= self.m23 <= m
        &&& -m <= self.m33 <= m
    }

    /// The zero quadric.
    pub fn zeros() -> (r: SymetricMatrix)
        ensures
            r.bounded(0),
            is_psd(r),
    {
        let r = SymetricMatrix {
            m00: 0,
            m01: 0,
            m02: 0,
            m03: 0,
            m11: 0,
            m12: 0,
            m13: 0,
            m22: 0,
            m23: 0,
            m33: 0,
        };
        proof {
            lemma_outer_psd(r, 0, 0, 0, 0);
        }
        r
    }

    /// Exact entrywise sum.
    pub fn plus(&self, o: &SymetricMatrix) -> (r: SymetricMatrix)
        requires
            self.bounded(0x2000_0000_0000_0000_0000_0000_0000_0000),
            o.bounded(0x2000_0000_0000_0000_0000_0000_0000_0000),
        ensures
            is_sum(r, *self, *o),
    {
        SymetricMatrix {
            m00: self.m00 + o.m00,
            m01: self.m01 + o.m01,
            m02: self.m02 + o.m02,
            m03: self.m03 + o.m03,
            m11: self.m11 + o.m11,
            m12: self.m12 + o.m12,
            m13: self.m13 + o.m13,
            m22: self.m22 + o.m22,
            m23: self.m23 + o.m23,
            m33: self.m33 + o.m33,
        }
    }

    /// The outer product of the plane row `(a, b, c, d)` with itself.
    pub fn from_plane(a: i128, b: i128, c: i128, d: i128) -> (r: SymetricMatrix)
        requires
            -PLANE_MAX <= a <= PLANE_MAX,
            -PLANE_MAX <= b <= PLANE_MAX,
            -PLANE_MAX <= c <= PLANE_MAX,
            -PLANE_MAX <= d <= PLANE_MAX,
        ensures
            is_outer(r, a as int, b as int, c as int, d as int),
            r.bounded(FACE_QUADRIC_MAX as int),
            is_psd(r),
    {
        proof {
            lemma_mul_bound(a as int, PLANE_MAX as int, a as int, PLANE_MAX as int);
            lemma_mul_bound(a as int, PLANE_MAX as int, b as int, PLANE_MAX as int);
            lemma_mul_bound(a as int, PLANE_MAX as int, c as int, PLANE_MAX as int);
            lemma_mul_bound(a as int, PLANE_MAX as int, d as int, PLANE_MAX as int);
            lemma_mul_bound(b as int, PLANE_MAX as int, b as int, PLANE_MAX as int);
            lemma_mul_bound(b as int, PLANE_MAX as int, c as int, PLANE_MAX as int);
            lemma_mul_bound(b as int, PLANE_MAX as int, d as int, PLANE_MAX as int);
            lemma_mul_bound(c as int, PLANE_MAX as int, c as int, PLANE_MAX as int);
            lemma_mul_bound(c as int, PLANE_MAX as int, d as int, PLANE_MAX as int);
            lemma_mul_bound(d as int, PLANE_MAX as int, d as int, PLANE_MAX as int);
        }
        let r = SymetricMatrix {
            m00: a * a,
            m01: a * b,
            m02: a * c,
            m03: a * d,
            m11: b * b,
            m12: b * c,
            m13: b * d,
            m22: c * c,
            m23: c * d,
            m33: d * d,
        };
        proof {
            lemma_outer_psd(r, a as int, b as int, c as int, d as int);
        }
        r
    }

    /// Exact evaluation of the quadratic form at `(p.x, p.y, p.z, 1)`.
    pub fn eval(&self, p: &Vec3) -> (r: i128)
        requires
            self.bounded(EVAL_LIMIT as int),
            p.bounded(0x2_0000),
        ensures
            r == eval_spec(*self, p.x as int, p.y as int, p.z as int),
    {
        qterm3(self.m00, p.x, p.x) + 2 * qterm3(self.m01, p.x, p.y) + 2 * qterm3(
            self.m02,
            p.x,
            p.z,
        ) + 2 * qterm2(self.m03, p.x) + qterm3(self.m11, p.y, p.y) + 2 * qterm3(
            self.m12,
            p.y,
            p.z,
        ) + 2 * qterm2(self.m13, p.y) + qterm3(self.m22, p.z, p.z) + 2 * qterm2(self.m23, p.z)
            + self.m33
    }

    /// Whether every entry used by the solve is small enough for an exact
    /// 3x3 determinant.
    pub fn fits_solve(&self) -> (r: bool)
        ensures
            r == self.solve_bounded(SOLVE_LIMIT as int),
    {
        -SOLVE_LIMIT <= self.m00 && self.m00 <= SOLVE_LIMIT && -SOLVE_LIMIT <= self.m01
            && self.m01 <= SOLVE_LIMIT && -SOLVE_LIMIT <= self.m02 && self.m02 <= SOLVE_LIMIT
            && -SOLVE_LIMIT <= self.m03 && self.m03 <= SOLVE_LIMIT && -SOLVE_LIMIT <= self.m11
            && self.m11 <= SOLVE_LIMIT && -SOLVE_LIMIT <= self.m12 && self.m12 <= SOLVE_LIMIT
            && -SOLVE_LIMIT <= self.m13 && self.m13 <= SOLVE_LIMIT && -SOLVE_LIMIT <= self.m22
            && self.m22 <= SOLVE_LIMIT && -SOLVE_LIMIT <= self.m23 && self.m23 <= SOLVE_LIMIT
    }

    /// The contraction position for a pair whose summed quadric is `self`:
    /// the minimizer of the quadratic form where the 3x3 system can be
    /// solved exactly, otherwise the midpoint of the two endpoints.
    pub fn optimal_position(&self, p1: &Vec3, p2: &Vec3) -> (r: Vec3)
        requires
            self.bounded(EVAL_LIMIT as int),
            p1.bounded(MAX_COORD as int),
            p2.bounded(MAX_COORD as int),
        ensures
            (r.x as int, r.y as int, r.z as int) == optimal_position_spec(*self, *p1, *p2),
            r.bounded(MAX_COORD as int),
    {
        let qs = if self.fits_solve() {
            *self
        } else {
            let q1 = self.shift_down(SOLVE_SHIFT_SMALL);
            if q1.fits_solve() {
                q1
            } else {
                let q2 = self.shift_down(SOLVE_SHIFT_LARGE);
                proof {
                    lemma_div_tz_le(self.m00 as int, SOLVE_SHIFT_LARGE as int, SOLVE_LIMIT as int);
                    lemma_div_tz_le(self.m01 as int, SOLVE_SHIFT_LARGE as int, SOLVE_LIMIT as int);
                    lemma_div_tz_le(self.m02 as int, SOLVE_SHIFT_LARGE as int, SOLVE_LIMIT as int);
                    lemma_div_tz_le(self.m03 as int, SOLVE_SHIFT_LARGE as int, SOLVE_LIMIT as int);
                    lemma_div_tz_le(self.m11 as int, SOLVE_SHIFT_LARGE as int, SOLVE_LIMIT as int);
                    lemma_div_tz_le(self.m12 as int, SOLVE_SHIFT_LARGE as int, SOLVE_LIMIT as int);
                    lemma_div_tz_le(self.m13 as int, SOLVE_SHIFT_LARGE as int, SOLVE_LIMIT as int);
                    lemma_div_tz_le(self.m22 as int, SOLVE_SHIFT_LARGE as int, SOLVE_LIMIT as int);
                    lemma_div_tz_le(self.m23 as int, SOLVE_SHIFT_LARGE as int, SOLVE_LIMIT as int);
                }
                q2
            }
        };
        proof {
            assert(qs == solve_quadric_spec(*self));
            assert(qs.solve_bounded(SOLVE_LIMIT as int));
        }
        {
            proof {
                lemma_mul_bound(qs.m11 as int, SOLVE_LIMIT as int, qs.m22 as int,
                    SOLVE_LIMIT as int);
                lemma_mul_bound(qs.m01 as int, SOLVE_LIMIT as int, qs.m22 as int,
                    SOLVE_LIMIT as int);
                lemma_mul_bound(qs.m01 as int, SOLVE_LIMIT as int, qs.m12 as int,
                    SOLVE_LIMIT as int);
                lemma_mul_bound(qs.m00 as int, SOLVE_LIMIT as int, qs.m22 as int,
                    SOLVE_LIMIT as int);
                lemma_mul_bound(qs.m00 as int, SOLVE_LIMIT as int, qs.m12 as int,
                    SOLVE_LIMIT as int);
                lemma_mul_bound(qs.m00 as int, SOLVE_LIMIT as int, qs.m11 as int,
                    SOLVE_LIMIT as int);
            }
            let cof00 = qs.m11 * qs.m22 - sterm(qs.m12, qs.m12);
            let cof01 = -(qs.m01 * qs.m22 - sterm(qs.m12, qs.m02));
            let cof02 = qs.m01 * qs.m12 - sterm(qs.m11, qs.m02);
            let cof11 = qs.m00 * qs.m22 - sterm(qs.m02, qs.m02);
            let cof12 = -(qs.m00 * qs.m12 - sterm(qs.m01, qs.m02));
            let cof22 = qs.m00 * qs.m11 - sterm(qs.m01, qs.m01);
            let det = dterm(qs.m00, cof00) + dterm(qs.m01, cof01) + dterm(qs.m02, cof02);
            if det != 0 {
                let num_x = -(dterm(qs.m03, cof00) + dterm(qs.m13, cof01) + dterm(
                    qs.m23,
                    cof02,
                ));
                let num_y = -(dterm(qs.m03, cof01) + dterm(qs.m13, cof11) + dterm(
                    qs.m23,
                    cof12,
                ));
                let num_z = -(dterm(qs.m03, cof02) + dterm(qs.m13, cof12) + dterm(
                    qs.m23,
                    cof22,
                ));
                let sx = if det > 0 {
                    crate::math::div_i(num_x, det)
                } else {
                    crate::math::div_i(-num_x, -det)
                };
                let sy = if det > 0 {
                    crate::math::div_i(num_y, det)
                } else {
                    crate::math::div_i(-num_y, -det)
                };
                let sz = if det > 0 {
                    crate::math::div_i(num_z, det)
                } else {
                    crate::math::div_i(-num_z, -det)
                };
                if -MAX_COORD <= sx && sx <= MAX_COORD && -MAX_COORD <= sy && sy <= MAX_COORD
                    && -MAX_COORD <= sz && sz <= MAX_COORD {
                    return Vec3 { x: sx, y: sy, z: sz };
                }
                self.midpoint(p1, p2)
            } else {
                self.midpoint(p1, p2)
            }
        }
    }

    /// Every entry divided by `d`, rounding toward zero.
    fn shift_down(&self, d: i128) -> (r: SymetricMatrix)
        requires
            0 < d,
            self.bounded(EVAL_LIMIT as int),
        ensures
            r == shifted_spec(*self, d as int),
    {
        SymetricMatrix {
            m00: crate::math::div_i(self.m00, d),
            m01: crate::math::div_i(self.m01, d),
            m02: crate::math::div_i(self.m02, d),
            m03: crate::math::div_i(self.m03, d),
            m11: crate::math::div_i(self.m11, d),
            m12: crate::math::div_i(self.m12, d),
            m13: crate::math::div_i(self.m13, d),
            m22: crate::math::div_i(self.m22, d),
            m23: crate::math::div_i(self.m23, d),
            m33: crate::math::div_i(self.m33, d),
        }
    }

    /// The midpoint fallback; exact per `midpoint_spec`.
    fn midpoint(&self, p1: &Vec3, p2: &Vec3) -> (r: Vec3)
        requires
            !solvable_spec(*self),
            p1.bounded(MAX_COORD as int),
            p2.bounded(MAX_COORD as int),
        ensures
            (r.x as int, r.y as int, r.z as int) == optimal_position_spec(*self, *p1, *p2),
            r.bounded(MAX_COORD as int),
    {
        let mx = crate::math::div_i(p1.x + p2.x, 2);
        let my = crate::math::div_i(p1.y + p2.y, 2);
        let mz = crate::math::div_i(p1.z + p2.z, 2);
        proof {
            lemma_div_tz_le(p1.x + p2.x, 2, MAX_COORD as int);
            lemma_div_tz_le(p1.y + p2.y, 2, MAX_COORD as int);
            lemma_div_tz_le(p1.z + p2.z, 2, MAX_COORD as int);
        }
        Vec3 { x: mx, y: my, z: mz }
    }
}

} // verus!
