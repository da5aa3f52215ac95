//! The face graph used for unfolding: per-triangle geometry with cached
//! normals, and neighbour relations along shared edges.

use vstd::prelude::*;

use crate::math::Vec3;
use crate::math::dot_spec;
use crate::math::div_tz;
use crate::math::iabs;
use crate::math::imin;
use crate::math::imax;
use crate::math::sqrt_floor;
use crate::math::isqrt;
use crate::math::lemma_mul_bound;
use crate::math::lemma_square_nonneg;
use crate::math::lemma_component_le_root;
use crate::math::Mat3;
use crate::math::ROT_SCALE;
use crate::math::MAX_UNFOLD_COORD;
use crate::math::MAX_COORD;
use crate::geometry::Triangle;
use crate::geometry::MeshError;
use crate::geometry::tri_valid;
use crate::geometry::tri_contains;
use crate::geometry::MAX_FACES;
use crate::geometry::MAX_VERTICES;

verus! {

/// The global vertex index of triangle `t` at local position `i`.
pub open spec fn tri_vert(t: Triangle, i: int) -> int {
    if i == 0 {
        t.v1 as int
    } else if i == 1 {
        t.v2 as int
    } else {
        t.v3 as int
    }
}

/// Triangle `t` has the (undirected) edge `{a, b}`.
pub open spec fn tri_has_edge(t: Triangle, a: int, b: int) -> bool {
    a != b && tri_contains(t, a) && tri_contains(t, b)
}

/// At least three distinct triangles share the edge `{a, b}`.
pub open spec fn edge_non_manifold(ts: Seq<Triangle>, a: int, b: int) -> bool {
    exists|x: int, y: int, z: int|
        0 <= x < y < z < ts.len() && #[trigger] tri_has_edge(ts[x], a, b) && #[trigger]
            tri_has_edge(ts[y], a, b) && #[trigger] tri_has_edge(ts[z], a, b)
}

/// Denominator of the flatness tolerance: a face counts as flat when each
/// in-plane normal component is below `1/FLAT_TOL` of the normal's length,
/// and the out-of-plane component is within `1/FLAT_TOL` of that length.
/// The tolerance matches the resolution of the arithmetic: rotations are
/// carried at scale `ROT_SCALE` and unit vectors are normalized through an
/// integer square root, so each rotation pass can perturb a unit normal by
/// roughly the reciprocal of the shortest edge length; `1/1024` absorbs
/// that rounding for meshes a few thousand units across.
pub const FLAT_TOL: i128 = 1024;

/// One triangle of the unfolding mesh: an identifier, a flattened flag, its
/// three vertices, the cached cross-product normal, and the indices of its
/// neighbour relations.
pub struct Face {
    pub id: usize,
    pub unfolded: bool,
    pub normal: Vec3,
    pub v0: Vec3,
    pub v1: Vec3,
    pub v2: Vec3,
    pub neighbourhoud: Vec<usize>,
}

/// The cross product `(b - a) x (c - a)`: the (unnormalized) outward normal
/// of the triangle `(a, b, c)`.
pub open spec fn face_normal_spec(a: Vec3, b: Vec3, c: Vec3) -> (int, int, int) {
    let e1x = b.x - a.x;
    let e1y = b.y - a.y;
    let e1z = b.z - a.z;
    let e2x = c.x - a.x;
    let e2y = c.y - a.y;
    let e2z = c.z - a.z;
    (e1y * e2z - e1z * e2y, e1z * e2x - e1x * e2z, e1x * e2y - e1y * e2x)
}

/// The flatness test on a normal: the normal is nonzero, its `x` and `z`
/// components are each below `1/FLAT_TOL` of its length, and the magnitude
/// of its `y` component is within `1/FLAT_TOL` of its length.
pub open spec fn is_flat_spec(n: Vec3) -> bool {
    let nn = dot_spec(n, n);
    let len = sqrt_floor(nn as nat) as int;
    &&& nn > 0
    &&& FLAT_TOL * iabs(n.x as int) <= len
    &&& FLAT_TOL * iabs(n.z as int) <= len
    &&& FLAT_TOL * (len - iabs(n.y as int)) <= len
}

/// The separating axis perpendicular (in the `(x, z)` plane) to the edge
/// from `p` to `q` of a flattened face.
pub open spec fn edge_axis_spec(p: Vec3, q: Vec3) -> (int, int) {
    (p.z - q.z, -(p.x - q.x))
}

/// The smallest projection of a face's vertices onto the axis `(ax, az)`.
pub open spec fn proj_min_spec(f: Face, ax: int, az: int) -> int {
    imin(
        imin(ax * f.v0.x + az * f.v0.z, ax * f.v1.x + az * f.v1.z),
        ax * f.v2.x + az * f.v2.z,
    )
}

/// The largest projection of a face's vertices onto the axis `(ax, az)`.
pub open spec fn proj_max_spec(f: Face, ax: int, az: int) -> int {
    imax(
        imax(ax * f.v0.x + az * f.v0.z, ax * f.v1.x + az * f.v1.z),
        ax * f.v2.x + az * f.v2.z,
    )
}

/// The axis `(ax, az)` separates the projections of the two faces.
pub open spec fn sep_axis_spec(f: Face, g: Face, ax: int, az: int) -> bool {
    proj_max_spec(f, ax, az) <= proj_min_spec(g, ax, az) || proj_max_spec(g, ax, az)
        <= proj_min_spec(f, ax, az)
}

/// The separating-axis overlap test for two flattened faces, projected to
/// the `(x, z)` plane: they collide exactly when none of the six edge
/// perpendiculars separates their projections.
pub open spec fn collide_spec(f: Face, g: Face) -> bool {
    &&& !sep_axis_spec(f, g, edge_axis_spec(f.v0, f.v1).0, edge_axis_spec(f.v0, f.v1).1)
    &&& !sep_axis_spec(f, g, edge_axis_spec(f.v1, f.v2).0, edge_axis_spec(f.v1, f.v2).1)
    &&& !sep_axis_spec(f, g, edge_axis_spec(f.v2, f.v0).0, edge_axis_spec(f.v2, f.v0).1)
    &&& !sep_axis_spec(f, g, edge_axis_spec(g.v0, g.v1).0, edge_axis_spec(g.v0, g.v1).1)
    &&& !sep_axis_spec(f, g, edge_axis_spec(g.v1, g.v2).0, edge_axis_spec(g.v1, g.v2).1)
    &&& !sep_axis_spec(f, g, edge_axis_spec(g.v2, g.v0).0, edge_axis_spec(g.v2, g.v0).1)
}

/// Colliding is symmetric: `collide_spec(f, g) == collide_spec(g, f)`.
pub proof fn lemma_collide_symmetric(f: Face, g: Face)
    ensures
        collide_spec(f, g) == collide_spec(g, f),
{
}

/// Flatness is idempotent: a face that is already flat receives no
/// further rotation, and re-applying the flattening step as the identity
/// rotation moves no vertex, so the recomputed normal and the flatness
/// check come out unchanged -- a flat face stays flat.
pub proof fn lemma_flatness_idempotent(f: Face, g: Face)
    requires
        f.geom_ok(),
        g.geom_ok(),
        ({
            let ident = (Mat3 {
                r00: ROT_SCALE,
                r01: 0i128,
                r02: 0i128,
                r10: 0i128,
                r11: ROT_SCALE,
                r12: 0i128,
                r20: 0i128,
                r21: 0i128,
                r22: ROT_SCALE,
            });
            &&& (g.v0.x as int, g.v0.y as int, g.v0.z as int) == crate::math::mat3_apply_spec(
                ident,
                f.v0,
            )
            &&& (g.v1.x as int, g.v1.y as int, g.v1.z as int) == crate::math::mat3_apply_spec(
                ident,
                f.v1,
            )
            &&& (g.v2.x as int, g.v2.y as int, g.v2.z as int) == crate::math::mat3_apply_spec(
                ident,
                f.v2,
            )
        }),
    ensures
        g.v0 == f.v0 && g.v1 == f.v1 && g.v2 == f.v2,
        g.normal == f.normal,
        is_flat_spec(g.normal) == is_flat_spec(f.normal),
{
    let ident = (Mat3 {
        r00: ROT_SCALE,
        r01: 0i128,
        r02: 0i128,
        r10: 0i128,
        r11: ROT_SCALE,
        r12: 0i128,
        r20: 0i128,
        r21: 0i128,
        r22: ROT_SCALE,
    });
    lemma_identity_apply(ident, f.v0);
    lemma_identity_apply(ident, f.v1);
    lemma_identity_apply(ident, f.v2);
}

proof fn lemma_identity_apply(m: Mat3, v: Vec3)
    requires
        m.r00 == ROT_SCALE && m.r11 == ROT_SCALE && m.r22 == ROT_SCALE,
        m.r01 == 0 && m.r02 == 0 && m.r10 == 0 && m.r12 == 0 && m.r20 == 0 && m.r21 == 0,
    ensures
        crate::math::mat3_apply_spec(m, v) == (v.x as int, v.y as int, v.z as int),
{
    assert(m.r00 * v.x + m.r01 * v.y + m.r02 * v.z == v.x * ROT_SCALE) by (nonlinear_arith)
        requires
            m.r00 == ROT_SCALE,
            m.r01 == 0,
            m.r02 == 0,
    {
    }
    assert(m.r10 * v.x + m.r11 * v.y + m.r12 * v.z == v.y * ROT_SCALE) by (nonlinear_arith)
        requires
            m.r11 == ROT_SCALE,
            m.r10 == 0,
            m.r12 == 0,
    {
    }
    assert(m.r20 * v.x + m.r21 * v.y + m.r22 * v.z == v.z * ROT_SCALE) by (nonlinear_arith)
        requires
            m.r22 == ROT_SCALE,
            m.r20 == 0,
            m.r21 == 0,
    {
    }
    crate::math::lemma_div_tz_exact(v.x as int, ROT_SCALE as int);
    crate::math::lemma_div_tz_exact(v.y as int, ROT_SCALE as int);
    crate::math::lemma_div_tz_exact(v.z as int, ROT_SCALE as int);
}

impl Face {
    /// Coordinates in the unfolding range and the cached normal consistent
    /// with the vertices.
    pub open spec fn geom_ok(self) -> bool {
        &&& self.v0.bounded(MAX_UNFOLD_COORD as int)
        &&& self.v1.bounded(MAX_UNFOLD_COORD as int)
        &&& self.v2.bounded(MAX_UNFOLD_COORD as int)
        &&& (self.normal.x as int, self.normal.y as int, self.normal.z as int)
            == face_normal_spec(self.v0, self.v1, self.v2)
    }

    /// Builds a face over three vertices, computing its normal.
    pub fn new(id: usize, v0: Vec3, v1: Vec3, v2: Vec3) -> (r: Face)
        requires
            v0.bounded(MAX_UNFOLD_COORD as int),
            v1.bounded(MAX_UNFOLD_COORD as int),
            v2.bounded(MAX_UNFOLD_COORD as int),
        ensures
            r.geom_ok(),
            r.id == id,
            !r.unfolded,
            r.v0 == v0 && r.v1 == v1 && r.v2 == v2,
            r.neighbourhoud.len() == 0,
    {
        let e1 = v1.minus(&v0);
        let e2 = v2.minus(&v0);
        proof {
            lemma_mul_bound(e1.y as int, 0x200_0000, e2.z as int, 0x200_0000);
            lemma_mul_bound(e1.z as int, 0x200_0000, e2.y as int, 0x200_0000);
            lemma_mul_bound(e1.z as int, 0x200_0000, e2.x as int, 0x200_0000);
            lemma_mul_bound(e1.x as int, 0x200_0000, e2.z as int, 0x200_0000);
            lemma_mul_bound(e1.x as int, 0x200_0000, e2.y as int, 0x200_0000);
            lemma_mul_bound(e1.y as int, 0x200_0000, e2.x as int, 0x200_0000);
        }
        let normal = e1.cross(&e2);
        Face { id, unfolded: false, normal, v0, v1, v2, neighbourhoud: Vec::new() }
    }

    /// Whether this face lies (within tolerance) in a plane `y == const`,
    /// judged by its cached normal alone.
    pub fn is_flat(&self) -> (r: bool)
        requires
            self.geom_ok(),
        ensures
            r == is_flat_spec(self.normal),
    {
        let n = self.normal;
        proof {
            lemma_face_normal_bound(*self);
            lemma_mul_bound(n.x as int, 0x10_0000_0000_0000, n.x as int, 0x10_0000_0000_0000);
            lemma_mul_bound(n.y as int, 0x10_0000_0000_0000, n.y as int, 0x10_0000_0000_0000);
            lemma_mul_bound(n.z as int, 0x10_0000_0000_0000, n.z as int, 0x10_0000_0000_0000);
            lemma_square_nonneg(n.x as int);
            lemma_square_nonneg(n.y as int);
            lemma_square_nonneg(n.z as int);
        }
        let nn = n.norm_squared();
        if nn == 0 {
            return false;
        }
        let len = isqrt(nn);
        proof {
            lemma_component_le_root(n.x as int, nn as int, len as int);
            lemma_component_le_root(n.y as int, nn as int, len as int);
            lemma_component_le_root(n.z as int, nn as int, len as int);
        }
        let ax = if n.x < 0 {
            -n.x
        } else {
            n.x
        };
        let ay = if n.y < 0 {
            -n.y
        } else {
            n.y
        };
        let az = if n.z < 0 {
            -n.z
        } else {
            n.z
        };
        FLAT_TOL * ax <= len && FLAT_TOL * az <= len && FLAT_TOL * (len - ay) <= len
    }

    /// The interval covered by this face's projection onto `(ax, az)`.
    fn project(&self, ax: i128, az: i128) -> (r: (i128, i128))
        requires
            self.v0.bounded(MAX_UNFOLD_COORD as int),
            self.v1.bounded(MAX_UNFOLD_COORD as int),
            self.v2.bounded(MAX_UNFOLD_COORD as int),
            -0x200_0000 <= ax <= 0x200_0000,
            -0x200_0000 <= az <= 0x200_0000,
        ensures
            r.0 == proj_min_spec(*self, ax as int, az as int),
            r.1 == proj_max_spec(*self, ax as int, az as int),
    {
        proof {
            lemma_mul_bound(ax as int, 0x200_0000, self.v0.x as int, 0x100_0000);
            lemma_mul_bound(az as int, 0x200_0000, self.v0.z as int, 0x100_0000);
            lemma_mul_bound(ax as int, 0x200_0000, self.v1.x as int, 0x100_0000);
            lemma_mul_bound(az as int, 0x200_0000, self.v1.z as int, 0x100_0000);
            lemma_mul_bound(ax as int, 0x200_0000, self.v2.x as int, 0x100_0000);
            lemma_mul_bound(az as int, 0x200_0000, self.v2.z as int, 0x100_0000);
        }
        let d0 = ax * self.v0.x + az * self.v0.z;
        let d1 = ax * self.v1.x + az * self.v1.z;
        let d2 = ax * self.v2.x + az * self.v2.z;
        let lo01 = if d0 <= d1 {
            d0
        } else {
            d1
        };
        let lo = if lo01 <= d2 {
            lo01
        } else {
            d2
        };
        let hi01 = if d0 <= d1 {
            d1
        } else {
            d0
        };
        let hi = if hi01 <= d2 {
            d2
        } else {
            hi01
        };
        (lo, hi)
    }

    /// The separating-axis collision test between two flattened faces.
    pub fn collide(&self, other: &Face) -> (r: bool)
        requires
            self.geom_ok(),
            other.geom_ok(),
        ensures
            r == collide_spec(*self, *other),
    {
        let ax1 = self.v0.z - self.v1.z;
        let az1 = -(self.v0.x - self.v1.x);
        let p = self.project(ax1, az1);
        let q = other.project(ax1, az1);
        let s1 = p.1 <= q.0 || q.1 <= p.0;
        let ax2 = self.v1.z - self.v2.z;
        let az2 = -(self.v1.x - self.v2.x);
        let p = self.project(ax2, az2);
        let q = other.project(ax2, az2);
        let s2 = p.1 <= q.0 || q.1 <= p.0;
        let ax3 = self.v2.z - self.v0.z;
        let az3 = -(self.v2.x - self.v0.x);
        let p = self.project(ax3, az3);
        let q = other.project(ax3, az3);
        let s3 = p.1 <= q.0 || q.1 <= p.0;
        let ax4 = other.v0.z - other.v1.z;
        let az4 = -(other.v0.x - other.v1.x);
        let p = self.project(ax4, az4);
        let q = other.project(ax4, az4);
        let s4 = p.1 <= q.0 || q.1 <= p.0;
        let ax5 = other.v1.z - other.v2.z;
        let az5 = -(other.v1.x - other.v2.x);
        let p = self.project(ax5, az5);
        let q = other.project(ax5, az5);
        let s5 = p.1 <= q.0 || q.1 <= p.0;
        let ax6 = other.v2.z - other.v0.z;
        let az6 = -(other.v2.x - other.v0.x);
        let p = self.project(ax6, az6);
        let q = other.project(ax6, az6);
        let s6 = p.1 <= q.0 || q.1 <= p.0;
        !s1 && !s2 && !s3 && !s4 && !s5 && !s6
    }
}

/// Why an unfolding request stopped.
#[derive(Clone, Copy, Debug, PartialEq, Eq, Structural)]
pub enum UnfoldError {
    /// The seed face index is out of range.
    InvalidSeed,
    /// A perpendicular needed for the fold rotation vanished: the face is
    /// degenerate or too acute for the fixed-point resolution.
    FaceTooAcute,
    /// A rotated or translated coordinate left the unfolding range.
    CoordinateOverflow,
}

/// The integer point lies within the unfolding coordinate range.
pub open spec fn in_unfold_range(p: (int, int, int)) -> bool {
    &&& -MAX_UNFOLD_COORD <= p.0 <= MAX_UNFOLD_COORD
    &&& -MAX_UNFOLD_COORD <= p.1 <= MAX_UNFOLD_COORD
    &&& -MAX_UNFOLD_COORD <= p.2 <= MAX_UNFOLD_COORD
}

/// The fold application to one point: rotate `v` about `pivot` by `m`.
pub open spec fn fold_point_spec(m: Mat3, pivot: Vec3, v: Vec3) -> (int, int, int) {
    let d = (Vec3 {
        x: (v.x - pivot.x) as i128,
        y: (v.y - pivot.y) as i128,
        z: (v.z - pivot.z) as i128,
    });
    let a = crate::math::mat3_apply_spec(m, d);
    (pivot.x + a.0, pivot.y + a.1, pivot.z + a.2)
}

/// The identity rotation at scale `ROT_SCALE`.
pub open spec fn ident_spec() -> Mat3 {
    Mat3 {
        r00: ROT_SCALE,
        r01: 0i128,
        r02: 0i128,
        r10: 0i128,
        r11: ROT_SCALE,
        r12: 0i128,
        r20: 0i128,
        r21: 0i128,
        r22: ROT_SCALE,
    }
}

/// The seed-placement rotation about `x`: cancels the tilt of `nrm` by
/// taking `(0, nrm.y, nrm.z)` onto the positive `y` axis; the identity
/// when that projection is zero.
pub open spec fn tilt_rotation_spec(nrm: Vec3) -> Mat3 {
    if nrm.y == 0 && nrm.z == 0 {
        ident_spec()
    } else {
        let nn = nrm.y * nrm.y + nrm.z * nrm.z;
        let len = sqrt_floor(nn as nat) as int;
        let c = div_tz(nrm.y * ROT_SCALE, len);
        let sg = div_tz(-nrm.z * ROT_SCALE, len);
        Mat3 {
            r00: ROT_SCALE,
            r01: 0i128,
            r02: 0i128,
            r10: 0i128,
            r11: c as i128,
            r12: (-sg) as i128,
            r20: 0i128,
            r21: sg as i128,
            r22: c as i128,
        }
    }
}

/// The seed-placement rotation about `z`: cancels the yaw of `nrm` by
/// taking `(nrm.x, nrm.y, 0)` onto the positive `y` axis; the identity
/// when that projection is zero.
pub open spec fn yaw_rotation_spec(nrm: Vec3) -> Mat3 {
    if nrm.x == 0 && nrm.y == 0 {
        ident_spec()
    } else {
        let nn = nrm.x * nrm.x + nrm.y * nrm.y;
        let len = sqrt_floor(nn as nat) as int;
        let c = div_tz(nrm.y * ROT_SCALE, len);
        let sg = div_tz(nrm.x * ROT_SCALE, len);
        Mat3 {
            r00: c as i128,
            r01: (-sg) as i128,
            r02: 0i128,
            r10: sg as i128,
            r11: c as i128,
            r12: 0i128,
            r20: 0i128,
            r21: 0i128,
            r22: ROT_SCALE,
        }
    }
}

/// A point after the translation and the first seed rotation.
pub open spec fn seed_half_chain_spec(v: Vec3, v0: Vec3, rx: Mat3) -> Vec3 {
    let w = (Vec3 { x: (v.x - v0.x) as i128, y: (v.y - v0.y) as i128, z: (v.z - v0.z) as i128 });
    let a = crate::math::mat3_apply_spec(rx, w);
    (Vec3 { x: a.0 as i128, y: a.1 as i128, z: a.2 as i128 })
}

/// Where seed placement sends a point: translate by the seed's first
/// vertex, rotate about `x`, rotate about `z`.
pub open spec fn seed_chain_spec(v: Vec3, v0: Vec3, rx: Mat3, rz: Mat3) -> (int, int, int) {
    crate::math::mat3_apply_spec(rz, seed_half_chain_spec(v, v0, rx))
}

/// The seed's normal after the translation and the first rotation: the
/// cross product recomputed from its transformed vertices.
pub open spec fn seed_mid_normal_spec(seed: Face) -> Vec3 {
    let v0 = seed.v0;
    let rx = tilt_rotation_spec(seed.normal);
    let n = face_normal_spec(
        seed_half_chain_spec(seed.v0, v0, rx),
        seed_half_chain_spec(seed.v1, v0, rx),
        seed_half_chain_spec(seed.v2, v0, rx),
    );
    (Vec3 { x: n.0 as i128, y: n.1 as i128, z: n.2 as i128 })
}

/// A bounded matrix sends the origin to the origin exactly.
proof fn lemma_apply_zero(m: Mat3)
    requires
        m.bounded(4 * ROT_SCALE as int),
    ensures
        crate::math::mat3_apply_spec(m, (Vec3 { x: 0i128, y: 0i128, z: 0i128 })) == (
            0int,
            0int,
            0int,
        ),
{
    lemma_mul_bound(m.r00 as int, 4 * ROT_SCALE as int, 0, 0);
    lemma_mul_bound(m.r01 as int, 4 * ROT_SCALE as int, 0, 0);
    lemma_mul_bound(m.r02 as int, 4 * ROT_SCALE as int, 0, 0);
    lemma_mul_bound(m.r10 as int, 4 * ROT_SCALE as int, 0, 0);
    lemma_mul_bound(m.r11 as int, 4 * ROT_SCALE as int, 0, 0);
    lemma_mul_bound(m.r12 as int, 4 * ROT_SCALE as int, 0, 0);
    lemma_mul_bound(m.r20 as int, 4 * ROT_SCALE as int, 0, 0);
    lemma_mul_bound(m.r21 as int, 4 * ROT_SCALE as int, 0, 0);
    lemma_mul_bound(m.r22 as int, 4 * ROT_SCALE as int, 0, 0);
    crate::math::lemma_div_tz_bound(
        m.r00 as int * 0 + m.r01 as int * 0 + m.r02 as int * 0,
        ROT_SCALE as int,
        0,
    );
    crate::math::lemma_div_tz_bound(
        m.r10 as int * 0 + m.r11 as int * 0 + m.r12 as int * 0,
        ROT_SCALE as int,
        0,
    );
    crate::math::lemma_div_tz_bound(
        m.r20 as int * 0 + m.r21 as int * 0 + m.r22 as int * 0,
        ROT_SCALE as int,
        0,
    );
}

/// A unit vector at scale `ROT_SCALE`: each component of `v` divided by the
/// Euclidean length, rounded toward zero. Meaningful when `v` is nonzero.
pub open spec fn normalize_spec(v: Vec3) -> (int, int, int) {
    let nn = dot_spec(v, v);
    let len = sqrt_floor(nn as nat) as int;
    (
        div_tz(v.x * ROT_SCALE, len),
        div_tz(v.y * ROT_SCALE, len),
        div_tz(v.z * ROT_SCALE, len),
    )
}

impl Face {
    /// The vertex at local index `i`.
    pub open spec fn vtx_spec(self, i: int) -> Vec3 {
        if i == 0 {
            self.v0
        } else if i == 1 {
            self.v1
        } else {
            self.v2
        }
    }

    pub fn vtx(&self, i: usize) -> (r: Vec3)
        requires
            i < 3,
        ensures
            r == self.vtx_spec(i as int),
    {
        if i == 0 {
            self.v0
        } else if i == 1 {
            self.v1
        } else {
            self.v2
        }
    }

    /// Shifts the face by `-d` when every shifted coordinate stays in
    /// range; translation changes no edge vector, so the cached normal
    /// stays consistent. Reports `false`, leaving the face unchanged, when
    /// a coordinate would leave the unfolding range.
    pub fn translate_back(&mut self, d: &Vec3) -> (ok: bool)
        requires
            old(self).geom_ok(),
            d.bounded(MAX_UNFOLD_COORD as int),
        ensures
            final(self).id == old(self).id,
            final(self).unfolded == old(self).unfolded,
            final(self).neighbourhoud == old(self).neighbourhoud,
            ok == ({
                &&& in_unfold_range(
                    (old(self).v0.x - d.x, old(self).v0.y - d.y, old(self).v0.z - d.z),
                )
                &&& in_unfold_range(
                    (old(self).v1.x - d.x, old(self).v1.y - d.y, old(self).v1.z - d.z),
                )
                &&& in_unfold_range(
                    (old(self).v2.x - d.x, old(self).v2.y - d.y, old(self).v2.z - d.z),
                )
            }),
            ok ==> {
                &&& final(self).geom_ok()
                &&& final(self).v0.x == old(self).v0.x - d.x && final(self).v0.y == old(
                    self,
                ).v0.y - d.y && final(self).v0.z == old(self).v0.z - d.z
                &&& final(self).v1.x == old(self).v1.x - d.x && final(self).v1.y == old(
                    self,
                ).v1.y - d.y && final(self).v1.z == old(self).v1.z - d.z
                &&& final(self).v2.x == old(self).v2.x - d.x && final(self).v2.y == old(
                    self,
                ).v2.y - d.y && final(self).v2.z == old(self).v2.z - d.z
                &&& final(self).normal == old(self).normal
            },
            !ok ==> *final(self) == *old(self),
    {
        let w0 = self.v0.minus(d);
        let w1 = self.v1.minus(d);
        let w2 = self.v2.minus(d);
        if Self::in_range(&w0) && Self::in_range(&w1) && Self::in_range(&w2) {
            self.v0 = w0;
            self.v1 = w1;
            self.v2 = w2;
            true
        } else {
            false
        }
    }

    /// Whether every coordinate is within the unfolding range.
    fn in_range(v: &Vec3) -> (r: bool)
        ensures
            r == v.bounded(MAX_UNFOLD_COORD as int),
    {
        -MAX_UNFOLD_COORD <= v.x && v.x <= MAX_UNFOLD_COORD && -MAX_UNFOLD_COORD <= v.y && v.y
            <= MAX_UNFOLD_COORD && -MAX_UNFOLD_COORD <= v.z && v.z <= MAX_UNFOLD_COORD
    }

    /// Rotates the face about the origin by `r` (at scale `ROT_SCALE`),
    /// recomputing the cached normal from the rotated vertices. Reports
    /// `false`, leaving the face unchanged, when a rotated coordinate
    /// would leave the unfolding range.
    pub fn rotate(&mut self, r: &Mat3) -> (ok: bool)
        requires
            old(self).geom_ok(),
            r.bounded(4 * ROT_SCALE as int),
        ensures
            final(self).id == old(self).id,
            final(self).unfolded == old(self).unfolded,
            final(self).neighbourhoud == old(self).neighbourhoud,
            ok == ({
                &&& in_unfold_range(crate::math::mat3_apply_spec(*r, old(self).v0))
                &&& in_unfold_range(crate::math::mat3_apply_spec(*r, old(self).v1))
                &&& in_unfold_range(crate::math::mat3_apply_spec(*r, old(self).v2))
            }),
            ok ==> {
                &&& final(self).geom_ok()
                &&& (final(self).v0.x as int, final(self).v0.y as int, final(self).v0.z as int)
                    == crate::math::mat3_apply_spec(*r, old(self).v0)
                &&& (final(self).v1.x as int, final(self).v1.y as int, final(self).v1.z as int)
                    == crate::math::mat3_apply_spec(*r, old(self).v1)
                &&& (final(self).v2.x as int, final(self).v2.y as int, final(self).v2.z as int)
                    == crate::math::mat3_apply_spec(*r, old(self).v2)
            },
            !ok ==> *final(self) == *old(self),
    {
        let w0 = r.apply(&self.v0);
        let w1 = r.apply(&self.v1);
        let w2 = r.apply(&self.v2);
        if Self::in_range(&w0) && Self::in_range(&w1) && Self::in_range(&w2) {
            let e1 = w1.minus(&w0);
            let e2 = w2.minus(&w0);
            proof {
                lemma_mul_bound(e1.y as int, 0x200_0000, e2.z as int, 0x200_0000);
                lemma_mul_bound(e1.z as int, 0x200_0000, e2.y as int, 0x200_0000);
                lemma_mul_bound(e1.z as int, 0x200_0000, e2.x as int, 0x200_0000);
                lemma_mul_bound(e1.x as int, 0x200_0000, e2.z as int, 0x200_0000);
                lemma_mul_bound(e1.x as int, 0x200_0000, e2.y as int, 0x200_0000);
                lemma_mul_bound(e1.y as int, 0x200_0000, e2.x as int, 0x200_0000);
            }
            let normal = e1.cross(&e2);
            self.v0 = w0;
            self.v1 = w1;
            self.v2 = w2;
            self.normal = normal;
            true
        } else {
            false
        }
    }

    /// Normalizes `v` to a unit vector at scale `ROT_SCALE`.
    fn normalize(v: &Vec3) -> (r: Vec3)
        requires
            v.bounded(0x1000_0000_0000),
            dot_spec(*v, *v) > 0,
        ensures
            (r.x as int, r.y as int, r.z as int) == normalize_spec(*v),
            r.bounded(ROT_SCALE as int),
    {
        proof {
            lemma_mul_bound(v.x as int, 0x1000_0000_0000, v.x as int, 0x1000_0000_0000);
            lemma_mul_bound(v.y as int, 0x1000_0000_0000, v.y as int, 0x1000_0000_0000);
            lemma_mul_bound(v.z as int, 0x1000_0000_0000, v.z as int, 0x1000_0000_0000);
            lemma_square_nonneg(v.x as int);
            lemma_square_nonneg(v.y as int);
            lemma_square_nonneg(v.z as int);
        }
        let nn = v.norm_squared();
        let len = isqrt(nn);
        proof {
            assert(len >= 1) by (nonlinear_arith)
                requires
                    nn >= 1,
                    len * len <= nn < (len + 1) * (len + 1),
                    len >= 0,
            {
            }
            lemma_component_le_root(v.x as int, nn as int, len as int);
            lemma_component_le_root(v.y as int, nn as int, len as int);
            lemma_component_le_root(v.z as int, nn as int, len as int);
            lemma_mul_bound(v.x as int, 0x1000_0000_0000, ROT_SCALE as int, ROT_SCALE as int);
            lemma_mul_bound(v.y as int, 0x1000_0000_0000, ROT_SCALE as int, ROT_SCALE as int);
            lemma_mul_bound(v.z as int, 0x1000_0000_0000, ROT_SCALE as int, ROT_SCALE as int);
            crate::math::lemma_div_tz_scale(v.x as int, len as int, ROT_SCALE as int);
            crate::math::lemma_div_tz_scale(v.y as int, len as int, ROT_SCALE as int);
            crate::math::lemma_div_tz_scale(v.z as int, len as int, ROT_SCALE as int);
        }
        let x = crate::math::div_i(v.x * ROT_SCALE, len);
        let y = crate::math::div_i(v.y * ROT_SCALE, len);
        let z = crate::math::div_i(v.z * ROT_SCALE, len);
        Vec3 { x, y, z }
    }
}

/// A relation folding a child face onto a parent face across a shared
/// edge: the local index of the non-shared vertex on each side, and the
/// rotation (recomputed before each use) that flattens the child.
#[derive(Clone, Copy, Debug)]
pub struct Neighbour {
    pub parent: usize,
    pub child: usize,
    pub p_futherest: usize,
    pub c_futherest: usize,
    pub rot: Mat3,
}

/// A neighbour relation is truthful for the triangle list `ts`: its two
/// faces share an edge, and each `futherest` index names the vertex of its
/// triangle that is not on that edge.
pub open spec fn neighbour_sound(nb: Neighbour, ts: Seq<Triangle>) -> bool {
    &&& nb.parent < ts.len()
    &&& nb.child < ts.len()
    &&& nb.parent != nb.child
    &&& nb.p_futherest < 3
    &&& nb.c_futherest < 3
    &&& exists|a: int, b: int|
        {
            &&& #[trigger] tri_has_edge(ts[nb.parent as int], a, b)
            &&& tri_has_edge(ts[nb.child as int], a, b)
            &&& tri_vert(ts[nb.parent as int], nb.p_futherest as int) != a
            &&& tri_vert(ts[nb.parent as int], nb.p_futherest as int) != b
            &&& tri_vert(ts[nb.child as int], nb.c_futherest as int) != a
            &&& tri_vert(ts[nb.child as int], nb.c_futherest as int) != b
        }
}

/// The cached normal of a well-formed face stays within the bound of a
/// cross product of in-range edge vectors.
proof fn lemma_face_normal_bound(f: Face)
    requires
        f.geom_ok(),
    ensures
        f.normal.bounded(0x8_0000_0000_0000),
{
    let e1x = f.v1.x as int - f.v0.x as int;
    let e1y = f.v1.y as int - f.v0.y as int;
    let e1z = f.v1.z as int - f.v0.z as int;
    let e2x = f.v2.x as int - f.v0.x as int;
    let e2y = f.v2.y as int - f.v0.y as int;
    let e2z = f.v2.z as int - f.v0.z as int;
    lemma_mul_bound(e1y, 0x200_0000, e2z, 0x200_0000);
    lemma_mul_bound(e1z, 0x200_0000, e2y, 0x200_0000);
    lemma_mul_bound(e1z, 0x200_0000, e2x, 0x200_0000);
    lemma_mul_bound(e1x, 0x200_0000, e2z, 0x200_0000);
    lemma_mul_bound(e1x, 0x200_0000, e2y, 0x200_0000);
    lemma_mul_bound(e1y, 0x200_0000, e2x, 0x200_0000);
}

/// The projection of the point `p + u` onto the line through `p` with
/// direction `axis`, each coordinate rounded toward zero.
pub open spec fn project_on_spec(u: Vec3, p: Vec3, axis: Vec3) -> (int, int, int) {
    let d = dot_spec(u, axis);
    let nn = dot_spec(axis, axis);
    (
        p.x + div_tz(d * axis.x, nn),
        p.y + div_tz(d * axis.y, nn),
        p.z + div_tz(d * axis.z, nn),
    )
}

/// The axis-angle (Rodrigues) rotation at scale `ROT_SCALE` for a unit
/// axis `u` and an angle given by its cosine and sine, every product
/// rescaled by truncating division.
pub open spec fn rodrigues_spec(u: Vec3, cos_s: int, sin_s: int) -> Mat3 {
    let omc = ROT_SCALE - cos_s;
    let txx = div_tz(u.x * u.x, ROT_SCALE as int);
    let txy = div_tz(u.x * u.y, ROT_SCALE as int);
    let txz = div_tz(u.x * u.z, ROT_SCALE as int);
    let tyy = div_tz(u.y * u.y, ROT_SCALE as int);
    let tyz = div_tz(u.y * u.z, ROT_SCALE as int);
    let tzz = div_tz(u.z * u.z, ROT_SCALE as int);
    let sx = div_tz(u.x * sin_s, ROT_SCALE as int);
    let sy = div_tz(u.y * sin_s, ROT_SCALE as int);
    let sz = div_tz(u.z * sin_s, ROT_SCALE as int);
    let axx = div_tz(txx * omc, ROT_SCALE as int);
    let axy = div_tz(txy * omc, ROT_SCALE as int);
    let axz = div_tz(txz * omc, ROT_SCALE as int);
    let ayy = div_tz(tyy * omc, ROT_SCALE as int);
    let ayz = div_tz(tyz * omc, ROT_SCALE as int);
    let azz = div_tz(tzz * omc, ROT_SCALE as int);
    Mat3 {
        r00: (axx + cos_s) as i128,
        r01: (axy - sz) as i128,
        r02: (axz + sy) as i128,
        r10: (axy + sz) as i128,
        r11: (ayy + cos_s) as i128,
        r12: (ayz - sx) as i128,
        r20: (axz - sy) as i128,
        r21: (ayz + sx) as i128,
        r22: (azz + cos_s) as i128,
    }
}

/// The transpose, which inverts a rotation.
pub open spec fn transpose_spec(m: Mat3) -> Mat3 {
    Mat3 {
        r00: m.r00,
        r01: m.r10,
        r02: m.r20,
        r10: m.r01,
        r11: m.r11,
        r12: m.r21,
        r20: m.r02,
        r21: m.r12,
        r22: m.r22,
    }
}

/// The fold rotation `reload` computes from the current geometry of a
/// parent and child face: the Rodrigues rotation about the shared edge by
/// the angle between the child's in-plane perpendicular and the opposite
/// of the parent's, or its transpose when the rotated perpendicular fails
/// to line up within tolerance.
/// The shared-edge direction of a fold: the vector from the parent's
/// first shared-edge vertex to its second.
pub open spec fn fold_u_spec(parent: Face, p_fur: int) -> Vec3 {
    let p1 = parent.vtx_spec((p_fur + 1) % 3);
    let p2 = parent.vtx_spec((p_fur + 2) % 3);
    (Vec3 { x: (p2.x - p1.x) as i128, y: (p2.y - p1.y) as i128, z: (p2.z - p1.z) as i128 })
}

/// The in-plane perpendicular of a fold: from the projection of `f`'s
/// furthest vertex onto the shared-edge line (through `p1` along `u`) to
/// that vertex.
pub open spec fn fold_perp_spec(f: Face, fur: int, p1: Vec3, u: Vec3) -> Vec3 {
    let pf = f.vtx_spec(fur);
    let pd = (Vec3 { x: (pf.x - p1.x) as i128, y: (pf.y - p1.y) as i128, z: (pf.z - p1.z) as i128 });
    let proj = project_on_spec(pd, p1, u);
    (Vec3 { x: (pf.x - proj.0) as i128, y: (pf.y - proj.1) as i128, z: (pf.z - proj.2) as i128 })
}

/// The checks `reload` applies, in order: a fold is impossible when the
/// shared edge or either in-plane perpendicular degenerates to zero
/// (`FaceTooAcute`), and is refused when a perpendicular leaves the range
/// that keeps the normalization exact (`CoordinateOverflow`).
pub open spec fn reload_check_spec(parent: Face, child: Face, p_fur: int, c_fur: int) -> Option<
    UnfoldError,
> {
    let p1 = parent.vtx_spec((p_fur + 1) % 3);
    let u = fold_u_spec(parent, p_fur);
    if dot_spec(u, u) == 0 {
        Some(UnfoldError::FaceTooAcute)
    } else {
        let pa = fold_perp_spec(parent, p_fur, p1, u);
        if !pa.bounded(0x1000_0000_0000) {
            Some(UnfoldError::CoordinateOverflow)
        } else if dot_spec(pa, pa) == 0 {
            Some(UnfoldError::FaceTooAcute)
        } else {
            let ca = fold_perp_spec(child, c_fur, p1, u);
            if !ca.bounded(0x1000_0000_0000) {
                Some(UnfoldError::CoordinateOverflow)
            } else if dot_spec(ca, ca) == 0 {
                Some(UnfoldError::FaceTooAcute)
            } else {
                None
            }
        }
    }
}

/// The fold rotation, constructed so that rotating about the shared-edge
/// direction carries the child's unit in-plane perpendicular onto the
/// opposite of the parent's: its cosine is their dot product and its sine
/// the complementary root, both at scale `ROT_SCALE`. Because the cosine
/// alone cannot tell the two fold directions apart, the construction is
/// checked by applying it to the child's perpendicular; if the result
/// misses the target by more than `1/1024`, the transposed (inverse)
/// rotation is returned instead. An exact turned-angle or orthogonality
/// statement is not available for the rounded matrix; the alignment check
/// is the stated guarantee.
pub open spec fn fold_rotation_spec(parent: Face, child: Face, p_fur: int, c_fur: int) -> Mat3 {
    let p1 = parent.vtx_spec((p_fur + 1) % 3);
    let u = fold_u_spec(parent, p_fur);
    let p_axis = fold_perp_spec(parent, p_fur, p1, u);
    let pn = normalize_spec(p_axis);
    let wish = (Vec3 { x: (-pn.0) as i128, y: (-pn.1) as i128, z: (-pn.2) as i128 });
    let c_axis = fold_perp_spec(child, c_fur, p1, u);
    let cn = normalize_spec(c_axis);
    let c_n = (Vec3 { x: cn.0 as i128, y: cn.1 as i128, z: cn.2 as i128 });
    let cos_div = div_tz(dot_spec(wish, c_n), ROT_SCALE as int);
    let cos_s = if cos_div > ROT_SCALE {
        ROT_SCALE as int
    } else if cos_div < -ROT_SCALE {
        -(ROT_SCALE as int)
    } else {
        cos_div
    };
    let sin_s = sqrt_floor((ROT_SCALE * ROT_SCALE - cos_s * cos_s) as nat) as int;
    let un = normalize_spec(u);
    let u_n = (Vec3 { x: un.0 as i128, y: un.1 as i128, z: un.2 as i128 });
    let rot0 = rodrigues_spec(u_n, cos_s, sin_s);
    let c_rot = crate::math::mat3_apply_spec(rot0, c_n);
    let dd = div_tz(c_rot.0 * wish.x + c_rot.1 * wish.y + c_rot.2 * wish.z, ROT_SCALE as int);
    if (ROT_SCALE - dd) * 1024 <= ROT_SCALE {
        rot0
    } else {
        transpose_spec(rot0)
    }
}

impl Neighbour {
    /// A relation from `parent` to `child` whose rotation starts as the
    /// identity; `reload` computes the real fold rotation before each use.
    pub fn new(parent: usize, child: usize, p_futherest: usize, c_futherest: usize) -> (r:
        Neighbour)
        ensures
            r.parent == parent,
            r.child == child,
            r.p_futherest == p_futherest,
            r.c_futherest == c_futherest,
            r.rot.bounded(ROT_SCALE as int),
    {
        Neighbour { parent, child, p_futherest, c_futherest, rot: Mat3::identity() }
    }

    /// Projects `u` onto the line through `p` along `axis`.
    pub fn project_on(u: &Vec3, p: &Vec3, axis: &Vec3) -> (r: Vec3)
        requires
            u.bounded(0x200_0000),
            p.bounded(MAX_UNFOLD_COORD as int),
            axis.bounded(0x200_0000),
            dot_spec(*axis, *axis) > 0,
        ensures
            (r.x as int, r.y as int, r.z as int) == project_on_spec(*u, *p, *axis),
            r.bounded(0x1000_0000_0000_0000_0000_0000),
    {
        let d = u.dot(axis);
        let nn = axis.norm_squared();
        proof {
            lemma_mul_bound(u.x as int, 0x200_0000, axis.x as int, 0x200_0000);
            lemma_mul_bound(u.y as int, 0x200_0000, axis.y as int, 0x200_0000);
            lemma_mul_bound(u.z as int, 0x200_0000, axis.z as int, 0x200_0000);
            lemma_mul_bound(d as int, 0x600_0000_0000_0000, axis.x as int, 0x200_0000);
            lemma_mul_bound(d as int, 0x600_0000_0000_0000, axis.y as int, 0x200_0000);
            lemma_mul_bound(d as int, 0x600_0000_0000_0000, axis.z as int, 0x200_0000);
            crate::math::lemma_div_tz_bound(d as int * axis.x as int, nn as int,
                0xc00_0000_0000_0000_0000_0000);
            crate::math::lemma_div_tz_bound(d as int * axis.y as int, nn as int,
                0xc00_0000_0000_0000_0000_0000);
            crate::math::lemma_div_tz_bound(d as int * axis.z as int, nn as int,
                0xc00_0000_0000_0000_0000_0000);
        }
        let rx = p.x + crate::math::div_i(d * axis.x, nn);
        let ry = p.y + crate::math::div_i(d * axis.y, nn);
        let rz = p.z + crate::math::div_i(d * axis.z, nn);
        Vec3 { x: rx, y: ry, z: rz }
    }

    /// The axis-angle (Rodrigues) rotation at scale `ROT_SCALE`, built from
    /// a unit axis and the cosine and sine of the fold angle.
    fn compute_rot_mat(cos_s: i128, sin_s: i128, u: &Vec3) -> (r: Mat3)
        requires
            -ROT_SCALE <= cos_s <= ROT_SCALE,
            0 <= sin_s <= ROT_SCALE,
            u.bounded(ROT_SCALE as int),
        ensures
            r.bounded(4 * ROT_SCALE as int),
            r == rodrigues_spec(*u, cos_s as int, sin_s as int),
    {
        let omc = ROT_SCALE - cos_s;
        proof {
            lemma_mul_bound(u.x as int, 0x10_0000, u.x as int, 0x10_0000);
            lemma_mul_bound(u.x as int, 0x10_0000, u.y as int, 0x10_0000);
            lemma_mul_bound(u.x as int, 0x10_0000, u.z as int, 0x10_0000);
            lemma_mul_bound(u.y as int, 0x10_0000, u.y as int, 0x10_0000);
            lemma_mul_bound(u.y as int, 0x10_0000, u.z as int, 0x10_0000);
            lemma_mul_bound(u.z as int, 0x10_0000, u.z as int, 0x10_0000);
            lemma_mul_bound(u.x as int, 0x10_0000, sin_s as int, 0x10_0000);
            lemma_mul_bound(u.y as int, 0x10_0000, sin_s as int, 0x10_0000);
            lemma_mul_bound(u.z as int, 0x10_0000, sin_s as int, 0x10_0000);
            crate::math::lemma_div_tz_le(u.x as int * u.x as int, 0x10_0000, 0x10_0000);
            crate::math::lemma_div_tz_le(u.x as int * u.y as int, 0x10_0000, 0x10_0000);
            crate::math::lemma_div_tz_le(u.x as int * u.z as int, 0x10_0000, 0x10_0000);
            crate::math::lemma_div_tz_le(u.y as int * u.y as int, 0x10_0000, 0x10_0000);
            crate::math::lemma_div_tz_le(u.y as int * u.z as int, 0x10_0000, 0x10_0000);
            crate::math::lemma_div_tz_le(u.z as int * u.z as int, 0x10_0000, 0x10_0000);
            crate::math::lemma_div_tz_le(u.x as int * sin_s as int, 0x10_0000, 0x10_0000);
            crate::math::lemma_div_tz_le(u.y as int * sin_s as int, 0x10_0000, 0x10_0000);
            crate::math::lemma_div_tz_le(u.z as int * sin_s as int, 0x10_0000, 0x10_0000);
        }
        let txx = crate::math::div_i(u.x * u.x, ROT_SCALE);
        let txy = crate::math::div_i(u.x * u.y, ROT_SCALE);
        let txz = crate::math::div_i(u.x * u.z, ROT_SCALE);
        let tyy = crate::math::div_i(u.y * u.y, ROT_SCALE);
        let tyz = crate::math::div_i(u.y * u.z, ROT_SCALE);
        let tzz = crate::math::div_i(u.z * u.z, ROT_SCALE);
        let sx = crate::math::div_i(u.x * sin_s, ROT_SCALE);
        let sy = crate::math::div_i(u.y * sin_s, ROT_SCALE);
        let sz = crate::math::div_i(u.z * sin_s, ROT_SCALE);
        proof {
            lemma_mul_bound(txx as int, 0x10_0000, omc as int, 0x20_0000);
            lemma_mul_bound(txy as int, 0x10_0000, omc as int, 0x20_0000);
            lemma_mul_bound(txz as int, 0x10_0000, omc as int, 0x20_0000);
            lemma_mul_bound(tyy as int, 0x10_0000, omc as int, 0x20_0000);
            lemma_mul_bound(tyz as int, 0x10_0000, omc as int, 0x20_0000);
            lemma_mul_bound(tzz as int, 0x10_0000, omc as int, 0x20_0000);
            crate::math::lemma_div_tz_le(txx as int * omc as int, 0x10_0000, 0x20_0000);
            crate::math::lemma_div_tz_le(txy as int * omc as int, 0x10_0000, 0x20_0000);
            crate::math::lemma_div_tz_le(txz as int * omc as int, 0x10_0000, 0x20_0000);
            crate::math::lemma_div_tz_le(tyy as int * omc as int, 0x10_0000, 0x20_0000);
            crate::math::lemma_div_tz_le(tyz as int * omc as int, 0x10_0000, 0x20_0000);
            crate::math::lemma_div_tz_le(tzz as int * omc as int, 0x10_0000, 0x20_0000);
        }
        let axx = crate::math::div_i(txx * omc, ROT_SCALE);
        let axy = crate::math::div_i(txy * omc, ROT_SCALE);
        let axz = crate::math::div_i(txz * omc, ROT_SCALE);
        let ayy = crate::math::div_i(tyy * omc, ROT_SCALE);
        let ayz = crate::math::div_i(tyz * omc, ROT_SCALE);
        let azz = crate::math::div_i(tzz * omc, ROT_SCALE);
        Mat3 {
            r00: axx + cos_s,
            r01: axy - sz,
            r02: axz + sy,
            r10: axy + sz,
            r11: ayy + cos_s,
            r12: ayz - sx,
            r20: axz - sy,
            r21: ayz + sx,
            r22: azz + cos_s,
        }
    }

    /// Recomputes the fold rotation from the current geometry of the
    /// parent and child faces: the rotation about the shared edge that
    /// takes the child's in-plane perpendicular onto the opposite of the
    /// parent's. When the rotated perpendicular fails to line up within
    /// tolerance, the transposed (inverse) rotation is used instead, as
    /// the angle's sign cannot be read off the cosine alone.
    #[verifier::rlimit(50)]
    pub fn reload(&mut self, parent: &Face, child: &Face) -> (r: Result<(), UnfoldError>)
        requires
            parent.geom_ok(),
            child.geom_ok(),
            old(self).p_futherest < 3,
            old(self).c_futherest < 3,
        ensures
            final(self).parent == old(self).parent,
            final(self).child == old(self).child,
            final(self).p_futherest == old(self).p_futherest,
            final(self).c_futherest == old(self).c_futherest,
            r is Err ==> *final(self) == *old(self),
            r is Ok ==> final(self).rot.bounded(4 * ROT_SCALE as int),
            r is Ok ==> final(self).rot == fold_rotation_spec(
                *parent,
                *child,
                old(self).p_futherest as int,
                old(self).c_futherest as int,
            ),
            r is Ok <==> reload_check_spec(
                *parent,
                *child,
                old(self).p_futherest as int,
                old(self).c_futherest as int,
            ) is None,
            match r {
                Result::Err(e) => Some(e) == reload_check_spec(
                    *parent,
                    *child,
                    old(self).p_futherest as int,
                    old(self).c_futherest as int,
                ),
                Result::Ok(u2) => true,
            },
    {
        let p1i = (self.p_futherest + 1) % 3;
        let p2i = (self.p_futherest + 2) % 3;
        let u = parent.vtx(p2i).minus(&parent.vtx(p1i));
        let p = parent.vtx(p1i);
        proof {
            assert(u == fold_u_spec(*parent, self.p_futherest as int));
        }
        let nn_u = u.norm_squared();
        if nn_u == 0 {
            return Result::Err(UnfoldError::FaceTooAcute);
        }
        let pf = parent.vtx(self.p_futherest);
        let proj_p = Neighbour::project_on(&pf.minus(&p), &p, &u);
        let p_axis = pf.minus(&proj_p);
        proof {
            assert(p_axis == fold_perp_spec(*parent, self.p_futherest as int, p, u));
        }
        if !(-0x1000_0000_0000 <= p_axis.x && p_axis.x <= 0x1000_0000_0000
            && -0x1000_0000_0000 <= p_axis.y && p_axis.y <= 0x1000_0000_0000
            && -0x1000_0000_0000 <= p_axis.z && p_axis.z <= 0x1000_0000_0000) {
            return Result::Err(UnfoldError::CoordinateOverflow);
        }
        proof {
            lemma_mul_bound(p_axis.x as int, 0x1000_0000_0000, p_axis.x as int,
                0x1000_0000_0000);
            lemma_mul_bound(p_axis.y as int, 0x1000_0000_0000, p_axis.y as int,
                0x1000_0000_0000);
            lemma_mul_bound(p_axis.z as int, 0x1000_0000_0000, p_axis.z as int,
                0x1000_0000_0000);
        }
        let p_nsq = p_axis.norm_squared();
        if p_nsq == 0 {
            return Result::Err(UnfoldError::FaceTooAcute);
        }
        let p_n = Face::normalize(&p_axis);
        let wish = Vec3 { x: -p_n.x, y: -p_n.y, z: -p_n.z };
        let cf = child.vtx(self.c_futherest);
        let proj_c = Neighbour::project_on(&cf.minus(&p), &p, &u);
        let c_axis = cf.minus(&proj_c);
        proof {
            assert(c_axis == fold_perp_spec(*child, self.c_futherest as int, p, u));
        }
        if !(-0x1000_0000_0000 <= c_axis.x && c_axis.x <= 0x1000_0000_0000
            && -0x1000_0000_0000 <= c_axis.y && c_axis.y <= 0x1000_0000_0000
            && -0x1000_0000_0000 <= c_axis.z && c_axis.z <= 0x1000_0000_0000) {
            return Result::Err(UnfoldError::CoordinateOverflow);
        }
        proof {
            lemma_mul_bound(c_axis.x as int, 0x1000_0000_0000, c_axis.x as int,
                0x1000_0000_0000);
            lemma_mul_bound(c_axis.y as int, 0x1000_0000_0000, c_axis.y as int,
                0x1000_0000_0000);
            lemma_mul_bound(c_axis.z as int, 0x1000_0000_0000, c_axis.z as int,
                0x1000_0000_0000);
        }
        let c_nsq = c_axis.norm_squared();
        if c_nsq == 0 {
            return Result::Err(UnfoldError::FaceTooAcute);
        }
        let c_n = Face::normalize(&c_axis);
        let cos_raw = wish.dot(&c_n);
        proof {
            lemma_mul_bound(wish.x as int, 0x10_0000, c_n.x as int, 0x10_0000);
            lemma_mul_bound(wish.y as int, 0x10_0000, c_n.y as int, 0x10_0000);
            lemma_mul_bound(wish.z as int, 0x10_0000, c_n.z as int, 0x10_0000);
        }
        let cos_div = crate::math::div_i(cos_raw, ROT_SCALE);
        let cos_s = if cos_div > ROT_SCALE {
            ROT_SCALE
        } else if cos_div < -ROT_SCALE {
            -ROT_SCALE
        } else {
            cos_div
        };
        proof {
            lemma_mul_bound(cos_s as int, 0x10_0000, cos_s as int, 0x10_0000);
            lemma_square_nonneg(cos_s as int);
        }
        let sin_sq = ROT_SCALE * ROT_SCALE - cos_s * cos_s;
        let sin_s = isqrt(sin_sq);
        proof {
            assert(sin_s <= ROT_SCALE) by (nonlinear_arith)
                requires
                    sin_s * sin_s <= sin_sq,
                    sin_sq <= ROT_SCALE * ROT_SCALE,
                    sin_s >= 0,
                    ROT_SCALE > 0,
            {
            }
        }
        let u_n = Face::normalize(&u);
        let rot0 = Neighbour::compute_rot_mat(cos_s, sin_s, &u_n);
        let c_rot = rot0.apply(&c_n);
        let d = c_rot.dot(&wish);
        proof {
            lemma_mul_bound(c_rot.x as int, 0x3000_0000, wish.x as int, 0x10_0000);
            lemma_mul_bound(c_rot.y as int, 0x3000_0000, wish.y as int, 0x10_0000);
            lemma_mul_bound(c_rot.z as int, 0x3000_0000, wish.z as int, 0x10_0000);
            crate::math::lemma_div_tz_le(d as int, 0x10_0000, 0x9000_0000);
        }
        let dd = crate::math::div_i(d, ROT_SCALE);
        let rot = if (ROT_SCALE - dd) * 1024 <= ROT_SCALE {
            rot0
        } else {
            rot0.transpose()
        };
        self.rot = rot;
        Result::Ok(())
    }

    /// Folds `face` onto this relation's parent plane: translate the pivot
    /// (the first shared-edge vertex) to the origin, rotate, translate
    /// back.
    pub fn align_from_here(&self, face: &mut Face, pivot: &Vec3) -> (ok: bool)
        requires
            old(face).geom_ok(),
            pivot.bounded(MAX_UNFOLD_COORD as int),
            self.rot.bounded(4 * ROT_SCALE as int),
        ensures
            final(face).id == old(face).id,
            final(face).unfolded == old(face).unfolded,
            final(face).neighbourhoud == old(face).neighbourhoud,
            ok == ({
                &&& in_unfold_range(fold_point_spec(self.rot, *pivot, old(face).v0))
                &&& in_unfold_range(fold_point_spec(self.rot, *pivot, old(face).v1))
                &&& in_unfold_range(fold_point_spec(self.rot, *pivot, old(face).v2))
            }),
            ok ==> {
                &&& final(face).geom_ok()
                &&& (final(face).v0.x as int, final(face).v0.y as int, final(face).v0.z as int)
                    == fold_point_spec(self.rot, *pivot, old(face).v0)
                &&& (final(face).v1.x as int, final(face).v1.y as int, final(face).v1.z as int)
                    == fold_point_spec(self.rot, *pivot, old(face).v1)
                &&& (final(face).v2.x as int, final(face).v2.y as int, final(face).v2.z as int)
                    == fold_point_spec(self.rot, *pivot, old(face).v2)
            },
            !ok ==> *final(face) == *old(face),
    {
        let d0 = face.v0.minus(pivot);
        let d1 = face.v1.minus(pivot);
        let d2 = face.v2.minus(pivot);
        let a0 = self.rot.apply(&d0);
        let a1 = self.rot.apply(&d1);
        let a2 = self.rot.apply(&d2);
        let w0 = a0.plus(pivot);
        let w1 = a1.plus(pivot);
        let w2 = a2.plus(pivot);
        if Face::in_range(&w0) && Face::in_range(&w1) && Face::in_range(&w2) {
            let e1 = w1.minus(&w0);
            let e2 = w2.minus(&w0);
            proof {
                lemma_mul_bound(e1.y as int, 0x200_0000, e2.z as int, 0x200_0000);
                lemma_mul_bound(e1.z as int, 0x200_0000, e2.y as int, 0x200_0000);
                lemma_mul_bound(e1.z as int, 0x200_0000, e2.x as int, 0x200_0000);
                lemma_mul_bound(e1.x as int, 0x200_0000, e2.z as int, 0x200_0000);
                lemma_mul_bound(e1.x as int, 0x200_0000, e2.y as int, 0x200_0000);
                lemma_mul_bound(e1.y as int, 0x200_0000, e2.x as int, 0x200_0000);
            }
            let normal = e1.cross(&e2);
            face.v0 = w0;
            face.v1 = w1;
            face.v2 = w2;
            face.normal = normal;
            true
        } else {
            false
        }
    }
}

/// Face `i` has a neighbour relation whose child is face `j`.
pub open spec fn linked_to(faces: Seq<Face>, nbs: Seq<Neighbour>, i: int, j: int) -> bool {
    exists|l: int|
        0 <= l < faces[i].neighbourhoud.len() && (#[trigger] faces[i].neighbourhoud[l])
            < nbs.len() && nbs[faces[i].neighbourhoud[l] as int].child == j
}

/// Face `j` can be reached from face `s` in at most `k` neighbour hops.
pub open spec fn reaches_within(
    faces: Seq<Face>,
    nbs: Seq<Neighbour>,
    s: int,
    j: int,
    k: nat,
) -> bool
    decreases k,
{
    if j == s {
        true
    } else if k == 0 {
        false
    } else {
        exists|p: int|
            0 <= p < faces.len() && reaches_within(faces, nbs, s, p, (k - 1) as nat)
                && #[trigger] linked_to(faces, nbs, p, j)
    }
}

/// In a graph where every unfolded face has only unfolded children,
/// everything reachable from an unfolded face is unfolded.
proof fn lemma_closure_reaches(faces: Seq<Face>, nbs: Seq<Neighbour>, s: int, j: int, k: nat)
    requires
        0 <= s < faces.len(),
        faces[s].unfolded,
        forall|i: int, l: int|
            0 <= i < faces.len() && (#[trigger] faces[i]).unfolded && 0 <= l
                < faces[i].neighbourhoud.len() ==> (#[trigger] faces[i].neighbourhoud[l])
                < nbs.len() && nbs[faces[i].neighbourhoud[l] as int].child < faces.len()
                && faces[nbs[faces[i].neighbourhoud[l] as int].child as int].unfolded,
        reaches_within(faces, nbs, s, j, k),
        0 <= j < faces.len(),
    ensures
        faces[j].unfolded,
    decreases k,
{
    if j != s {
        let p = choose|p: int|
            0 <= p < faces.len() && reaches_within(faces, nbs, s, p, (k - 1) as nat)
                && #[trigger] linked_to(faces, nbs, p, j);
        lemma_closure_reaches(faces, nbs, s, p, (k - 1) as nat);
        let l = choose|l: int|
            0 <= l < faces[p].neighbourhoud.len() && (#[trigger] faces[p].neighbourhoud[l])
                < nbs.len() && nbs[faces[p].neighbourhoud[l] as int].child == j;
        assert(faces[nbs[faces[p].neighbourhoud[l] as int].child as int].unfolded);
    }
}

/// Every neighbour relation of face `i` leads to an unfolded child.
pub open spec fn children_unfolded(faces: Seq<Face>, nbs: Seq<Neighbour>, i: int) -> bool {
    forall|l: int|
        0 <= l < faces[i].neighbourhoud.len() ==> faces[nbs[(#[trigger] faces[i].neighbourhoud[l])
            as int].child as int].unfolded
}

/// Face `j` carries folded geometry: some unfolded parent face has a
/// neighbour relation with child `j` whose stored rotation is the
/// documented fold rotation for that parent and a pre-fold state `pre`,
/// and `j`'s vertices are exactly `pre` folded by that rotation about the
/// parent's first shared-edge vertex.
pub open spec fn folded_from(faces: Seq<Face>, nbs: Seq<Neighbour>, j: usize) -> bool {
    exists|par: int, nbk: int, pre: Face|
        {
            &&& 0 <= par < faces.len()
            &&& faces[par].unfolded
            &&& 0 <= nbk < nbs.len()
            &&& faces[par].neighbourhoud@.contains(nbk as usize)
            &&& nbs[nbk].child == j
            &&& reload_check_spec(
                faces[par],
                pre,
                nbs[nbk].p_futherest as int,
                nbs[nbk].c_futherest as int,
            ) is None
            &&& #[trigger] fold_rotation_spec(
                faces[par],
                pre,
                nbs[nbk].p_futherest as int,
                nbs[nbk].c_futherest as int,
            ) == nbs[nbk].rot
            &&& ({
                let pivot = faces[par].vtx_spec((nbs[nbk].p_futherest + 1) % 3);
                &&& (
                    faces[j as int].v0.x as int,
                    faces[j as int].v0.y as int,
                    faces[j as int].v0.z as int,
                ) == fold_point_spec(nbs[nbk].rot, pivot, pre.v0)
                &&& (
                    faces[j as int].v1.x as int,
                    faces[j as int].v1.y as int,
                    faces[j as int].v1.z as int,
                ) == fold_point_spec(nbs[nbk].rot, pivot, pre.v1)
                &&& (
                    faces[j as int].v2.x as int,
                    faces[j as int].v2.y as int,
                    faces[j as int].v2.z as int,
                ) == fold_point_spec(nbs[nbk].rot, pivot, pre.v2)
            })
        }
}

/// `c` names two distinct members of `patch` whose faces collide.
pub open spec fn collision_sound(faces: Seq<Face>, patch: Seq<usize>, c: (usize, usize)) -> bool {
    exists|k: int, l: int|
        0 <= k < l < patch.len() && c == ((#[trigger] patch[k]), (#[trigger] patch[l]))
            && collide_spec(faces[patch[k] as int], faces[patch[l] as int])
}

/// What one unfolding pass produced: the faces flattened by this pass
/// (the patch, seed first) and every colliding pair among them.
pub struct UnfoldReport {
    pub patch: Vec<usize>,
    pub collisions: Vec<(usize, usize)>,
}

/// The unfolding mesh: faces, their neighbour relations, and the edges
/// found to be non-manifold while building the graph.
pub struct Mesh {
    pub faces: Vec<Face>,
    pub neighbours: Vec<Neighbour>,
    pub non_manifold_edges: Vec<(usize, usize)>,
}

/// One edge of the incidence index built while pairing triangles.
struct EdgeRec {
    a: usize,
    b: usize,
    tris: Vec<usize>,
}

/// Some record with key `(a, b)` lists triangle `t`.
spec fn rec_lists(recs: Seq<EdgeRec>, a: usize, b: usize, t: usize) -> bool {
    exists|k: int|
        0 <= k < recs.len() && (#[trigger] recs[k]).a == a && recs[k].b == b && exists|l: int|
            0 <= l < recs[k].tris.len() && recs[k].tris[l] == t
}

/// No two records carry the same edge key.
spec fn rec_keys_unique(recs: Seq<EdgeRec>) -> bool {
    forall|k1: int, k2: int|
        0 <= k1 < k2 < recs.len() ==> !((#[trigger] recs[k1]).a == (#[trigger] recs[k2]).a
            && recs[k1].b == recs[k2].b)
}

/// Some neighbour relation goes from parent `i` to child `j`.
pub open spec fn pair_linked(nbs: Seq<Neighbour>, i: usize, j: usize) -> bool {
    exists|n: int| 0 <= n < nbs.len() && (#[trigger] nbs[n]).parent == i && nbs[n].child == j
}

impl Mesh {
    /// Structural well-formedness: consistent ids and normals, coordinates
    /// in the unfolding range, and every cross-reference in bounds.
    pub open spec fn wf(self) -> bool {
        &&& self.faces.len() <= MAX_FACES
        &&& forall|i: int| 0 <= i < self.faces.len() ==> (#[trigger] self.faces[i]).id == i
        &&& forall|i: int| 0 <= i < self.faces.len() ==> (#[trigger] self.faces[i]).geom_ok()
        &&& forall|i: int, j: int|
            0 <= i < self.faces.len() && 0 <= j < self.faces[i].neighbourhoud.len()
                ==> (#[trigger] self.faces[i].neighbourhoud[j]) < self.neighbours.len()
        &&& forall|k: int|
            0 <= k < self.neighbours.len() ==> {
                &&& (#[trigger] self.neighbours[k]).parent < self.faces.len()
                &&& self.neighbours[k].child < self.faces.len()
                &&& self.neighbours[k].parent != self.neighbours[k].child
                &&& self.neighbours[k].p_futherest < 3
                &&& self.neighbours[k].c_futherest < 3
                &&& self.neighbours[k].rot.bounded(4 * ROT_SCALE as int)
            }
    }

    /// The validation applied to the input mesh, in order.
    pub open spec fn validate_spec(positions: Seq<Vec3>, triangles: Seq<Triangle>) -> Option<
        MeshError,
    > {
        if positions.len() < 3 || triangles.len() < 1 {
            Some(MeshError::DegenerateInput)
        } else if positions.len() > MAX_VERTICES || triangles.len() > MAX_FACES {
            Some(MeshError::TooLarge)
        } else if exists|i: int|
            0 <= i < triangles.len() && !tri_valid(#[trigger] triangles[i], positions.len() as int) {
            Some(MeshError::InvalidTriangle)
        } else if exists|i: int|
            0 <= i < positions.len() && !(#[trigger] positions[i]).bounded(MAX_COORD as int) {
            Some(MeshError::CoordinateOutOfRange)
        } else {
            None
        }
    }

    /// Builds the face graph: one face per triangle, and, for every edge
    /// shared by exactly two triangles, a neighbour relation in each
    /// direction. Edges shared by more than two triangles are reported in
    /// `non_manifold_edges` (and get no relation).
    pub fn new(triangles: &Vec<Triangle>, positions: &Vec<Vec3>) -> (r: Result<Mesh, MeshError>)
        ensures
            match r {
                Result::Ok(m) => {
                    &&& Self::validate_spec(positions@, triangles@) is None
                    &&& m.wf()
                    &&& m.faces.len() == triangles.len()
                    &&& forall|i: int|
                        0 <= i < triangles.len() ==> {
                            &&& (#[trigger] m.faces[i]).v0 == positions[triangles[i].v1 as int]
                            &&& m.faces[i].v1 == positions[triangles[i].v2 as int]
                            &&& m.faces[i].v2 == positions[triangles[i].v3 as int]
                            &&& !m.faces[i].unfolded
                        }
                    &&& forall|k: int|
                        0 <= k < m.neighbours.len() ==> neighbour_sound(
                            #[trigger] m.neighbours[k],
                            triangles@,
                        )
                    &&& forall|k: int|
                        0 <= k < m.neighbours.len()
                            ==> (#[trigger] m.faces[m.neighbours[k].parent as int]).neighbourhoud@
                            .contains(k as usize)
                    &&& forall|w: int|
                        0 <= w < m.non_manifold_edges.len() ==> edge_non_manifold(
                            triangles@,
                            (#[trigger] m.non_manifold_edges[w]).0 as int,
                            m.non_manifold_edges[w].1 as int,
                            )
                    &&& forall|a: usize, b: usize, x: int, y: int, z: int|
                        ({
                            &&& a < b
                            &&& 0 <= x < y < z < triangles.len()
                            &&& #[trigger] tri_has_edge(triangles[x], a as int, b as int)
                            &&& #[trigger] tri_has_edge(triangles[y], a as int, b as int)
                            &&& #[trigger] tri_has_edge(triangles[z], a as int, b as int)
                        }) ==> m.non_manifold_edges@.contains((a, b))
                    &&& forall|a: usize, b: usize, i: usize, j: usize|
                        ({
                            &&& a < b
                            &&& i < triangles.len()
                            &&& j < triangles.len()
                            &&& i != j
                            &&& #[trigger] tri_has_edge(triangles[i as int], a as int, b as int)
                            &&& #[trigger] tri_has_edge(triangles[j as int], a as int, b as int)
                            &&& forall|l: int|
                                0 <= l < triangles.len() && #[trigger] tri_has_edge(
                                    triangles[l],
                                    a as int,
                                    b as int,
                                ) ==> l == i || l == j
                        }) ==> pair_linked(m.neighbours@, i, j) && pair_linked(
                            m.neighbours@,
                            j,
                            i,
                        )
                },
                Result::Err(e) => Self::validate_spec(positions@, triangles@) == Some(e),
            },
    {
        if positions.len() < 3 || triangles.len() < 1 {
            return Result::Err(MeshError::DegenerateInput);
        }
        if positions.len() > MAX_VERTICES || triangles.len() > MAX_FACES {
            return Result::Err(MeshError::TooLarge);
        }
        let n = positions.len();
        let m = triangles.len();
        let mut i: usize = 0;
        while i < m
            invariant
                0 <= i <= m,
                m == triangles.len(),
                n == positions.len(),
                3 <= n <= MAX_VERTICES,
                1 <= m <= MAX_FACES,
                forall|j: int| 0 <= j < i ==> tri_valid(#[trigger] triangles[j], n as int),
            decreases m - i,
        {
            let t = triangles[i];
            if !(t.v1 < n && t.v2 < n && t.v3 < n && t.v1 != t.v2 && t.v1 != t.v3 && t.v2
                != t.v3) {
                proof {
                    assert(!tri_valid(triangles[i as int], positions@.len() as int));
                }
                return Result::Err(MeshError::InvalidTriangle);
            }
            i = i + 1;
        }
        let mut i: usize = 0;
        while i < n
            invariant
                0 <= i <= n,
                m == triangles.len(),
                n == positions.len(),
                3 <= n <= MAX_VERTICES,
                1 <= m <= MAX_FACES,
                forall|j: int| 0 <= j < m ==> tri_valid(#[trigger] triangles[j], n as int),
                forall|j: int| 0 <= j < i ==> (#[trigger] positions[j]).bounded(MAX_COORD as int),
            decreases n - i,
        {
            let p = positions[i];
            if !(-MAX_COORD <= p.x && p.x <= MAX_COORD && -MAX_COORD <= p.y && p.y <= MAX_COORD
                && -MAX_COORD <= p.z && p.z <= MAX_COORD) {
                proof {
                    assert(!positions[i as int].bounded(MAX_COORD as int));
                }
                return Result::Err(MeshError::CoordinateOutOfRange);
            }
            i = i + 1;
        }
        let mut faces: Vec<Face> = Vec::new();
        let mut i: usize = 0;
        while i < m
            invariant
                0 <= i <= m,
                m == triangles.len(),
                n == positions.len(),
                faces.len() == i,
                forall|j: int| 0 <= j < m ==> tri_valid(#[trigger] triangles[j], n as int),
                forall|j: int| 0 <= j < n ==> (#[trigger] positions[j]).bounded(MAX_COORD as int),
                forall|j: int|
                    0 <= j < i ==> {
                        &&& (#[trigger] faces[j]).id == j
                        &&& faces[j].geom_ok()
                        &&& faces[j].v0 == positions[triangles[j].v1 as int]
                        &&& faces[j].v1 == positions[triangles[j].v2 as int]
                        &&& faces[j].v2 == positions[triangles[j].v3 as int]
                        &&& !faces[j].unfolded
                        &&& faces[j].neighbourhoud.len() == 0
                    },
            decreases m - i,
        {
            let t = triangles[i];
            let f = Face::new(i, positions[t.v1], positions[t.v2], positions[t.v3]);
            faces.push(f);
            i = i + 1;
        }
        let mut recs: Vec<EdgeRec> = Vec::new();
        let mut warnings: Vec<(usize, usize)> = Vec::new();
        let mut i: usize = 0;
        while i < m
            invariant
                0 <= i <= m,
                m == triangles.len(),
                n == positions.len(),
                forall|j: int| 0 <= j < m ==> tri_valid(#[trigger] triangles[j], n as int),
                forall|k: int|
                    0 <= k < recs.len() ==> {
                        &&& (#[trigger] recs[k]).a < recs[k].b
                        &&& recs[k].tris.len() >= 1
                        &&& forall|l: int|
                            0 <= l < recs[k].tris.len() ==> (#[trigger] recs[k].tris[l]) < i
                                && tri_has_edge(
                                triangles[recs[k].tris[l] as int],
                                recs[k].a as int,
                                recs[k].b as int,
                            )
                        &&& forall|l1: int, l2: int|
                            0 <= l1 < l2 < recs[k].tris.len() ==> (#[trigger] recs[k].tris[l1])
                                < (#[trigger] recs[k].tris[l2])
                    },
                rec_keys_unique(recs@),
                forall|k: int|
                    0 <= k < recs.len() && (#[trigger] recs[k]).tris.len() >= 3
                        ==> warnings@.contains((recs[k].a, recs[k].b)),
                forall|ii: usize, aa: usize, bb: usize|
                    ii < i && aa < bb && #[trigger] tri_has_edge(
                        triangles[ii as int],
                        aa as int,
                        bb as int,
                    ) ==> rec_lists(recs@, aa, bb, ii),
                forall|w: int|
                    0 <= w < warnings.len() ==> edge_non_manifold(
                        triangles@,
                        (#[trigger] warnings[w]).0 as int,
                        warnings[w].1 as int,
                        ),
            decreases m - i,
        {
            let t = triangles[i];
            let ea = if t.v1 < t.v2 {
                (t.v1, t.v2)
            } else {
                (t.v2, t.v1)
            };
            Self::record_edge(&mut recs, &mut warnings, triangles, i, ea.0, ea.1);
            let eb = if t.v2 < t.v3 {
                (t.v2, t.v3)
            } else {
                (t.v3, t.v2)
            };
            proof {
                assert(!(ea.0 == eb.0 && ea.1 == eb.1));
            }
            Self::record_edge(&mut recs, &mut warnings, triangles, i, eb.0, eb.1);
            let ec = if t.v1 < t.v3 {
                (t.v1, t.v3)
            } else {
                (t.v3, t.v1)
            };
            proof {
                assert(!(ea.0 == ec.0 && ea.1 == ec.1));
                assert(!(eb.0 == ec.0 && eb.1 == ec.1));
            }
            Self::record_edge(&mut recs, &mut warnings, triangles, i, ec.0, ec.1);
            proof {
                assert forall|ii: usize, aa: usize, bb: usize|
                    ii < i + 1 && aa < bb && #[trigger] tri_has_edge(
                        triangles[ii as int],
                        aa as int,
                        bb as int,
                    ) implies rec_lists(recs@, aa, bb, ii) by {
                    if ii < i {
                        assert(rec_lists(recs@, aa, bb, ii));
                    } else {
                        assert((aa, bb) == ea || (aa, bb) == eb || (aa, bb) == ec);
                    }
                }
            }
            i = i + 1;
        }
        let mut neighbours: Vec<Neighbour> = Vec::new();
        let mut k: usize = 0;
        while k < recs.len()
            invariant
                0 <= k <= recs.len(),
                m == triangles.len(),
                faces.len() == m,
                neighbours.len() % 2 == 0,
                forall|j: int| 0 <= j < m ==> tri_valid(#[trigger] triangles[j], n as int),
                forall|kk: int|
                    0 <= kk < recs.len() ==> {
                        &&& (#[trigger] recs[kk]).a < recs[kk].b
                        &&& recs[kk].tris.len() >= 1
                        &&& forall|l: int|
                            0 <= l < recs[kk].tris.len() ==> (#[trigger] recs[kk].tris[l]) < m
                                && tri_has_edge(
                                triangles[recs[kk].tris[l] as int],
                                recs[kk].a as int,
                                recs[kk].b as int,
                            )
                        &&& forall|l1: int, l2: int|
                            0 <= l1 < l2 < recs[kk].tris.len() ==> (#[trigger] recs[kk].tris[l1])
                                < (#[trigger] recs[kk].tris[l2])
                    },
                forall|j: int|
                    0 <= j < m ==> {
                        &&& (#[trigger] faces[j]).id == j
                        &&& faces[j].geom_ok()
                        &&& faces[j].v0 == positions[triangles[j].v1 as int]
                        &&& faces[j].v1 == positions[triangles[j].v2 as int]
                        &&& faces[j].v2 == positions[triangles[j].v3 as int]
                        &&& !faces[j].unfolded
                    },
                forall|j: int, l: int|
                    0 <= j < m && 0 <= l < faces[j].neighbourhoud.len()
                        ==> (#[trigger] faces[j].neighbourhoud[l]) < neighbours.len(),
                forall|kk: int|
                    0 <= kk < neighbours.len() ==> neighbour_sound(
                        #[trigger] neighbours[kk],
                        triangles@,
                    ),
                forall|kk: int|
                    0 <= kk < neighbours.len() ==> neighbours[kk].rot.bounded(2 * ROT_SCALE as int),
                forall|kk: int|
                    0 <= kk < neighbours.len()
                        ==> (#[trigger] faces[neighbours[kk].parent as int]).neighbourhoud@
                        .contains(kk as usize),
                neighbours.len() <= 2 * k,
                rec_keys_unique(recs@),
                forall|ii: usize, aa: usize, bb: usize|
                    ii < m && aa < bb && #[trigger] tri_has_edge(
                        triangles[ii as int],
                        aa as int,
                        bb as int,
                    ) ==> rec_lists(recs@, aa, bb, ii),
                forall|kk: int|
                    0 <= kk < k && (#[trigger] recs[kk]).tris.len() == 2 ==> pair_linked(
                        neighbours@,
                        recs[kk].tris[0],
                        recs[kk].tris[1],
                    ) && pair_linked(neighbours@, recs[kk].tris[1], recs[kk].tris[0]),
            decreases recs.len() - k,
        {
            let tris_len = recs[k].tris.len();
            if tris_len == 2 {
                let fa = recs[k].tris[0];
                let fb = recs[k].tris[1];
                let ea = recs[k].a;
                let eb = recs[k].b;
                let fa_fur = Self::furthest_local(&triangles[fa], ea, eb);
                let fb_fur = Self::furthest_local(&triangles[fb], ea, eb);
                let ghost before = faces@;
                let ghost nbs0 = neighbours@;
                let idx1 = neighbours.len();
                {
                    let nb1 = Neighbour::new(fa, fb, fa_fur, fb_fur);
                    let nb2 = Neighbour::new(fb, fa, fb_fur, fa_fur);
                    proof {
                        let rk = recs@[k as int];
                        assert(rk.tris[0] == fa);
                        assert(rk.tris[1] == fb);
                        assert(fa < fb);
                        assert(tri_has_edge(triangles@[rk.tris[0] as int], rk.a as int,
                            rk.b as int));
                        assert(tri_has_edge(triangles@[rk.tris[1] as int], rk.a as int,
                            rk.b as int));
                        assert(tri_has_edge(triangles@[fa as int], ea as int, eb as int));
                        assert(tri_has_edge(triangles@[fb as int], ea as int, eb as int));
                        assert(neighbour_sound(nb1, triangles@));
                        assert(neighbour_sound(nb2, triangles@));
                    }
                    faces[fa].neighbourhoud.push(idx1);
                    neighbours.push(nb1);
                    let idx2 = neighbours.len();
                    faces[fb].neighbourhoud.push(idx2);
                    neighbours.push(nb2);
                    proof {
                        assert(neighbours@[idx1 as int] == nb1);
                        assert(neighbours@[idx2 as int] == nb2);
                        assert(pair_linked(neighbours@, fa, fb));
                        assert(pair_linked(neighbours@, fb, fa));
                        assert forall|ii: usize, jj: usize| #[trigger] pair_linked(
                            nbs0,
                            ii,
                            jj,
                        ) implies pair_linked(neighbours@, ii, jj) by {
                            let n0 = choose|n0: int|
                                0 <= n0 < nbs0.len() && (#[trigger] nbs0[n0]).parent == ii
                                    && nbs0[n0].child == jj;
                            assert(neighbours@[n0] == nbs0[n0]);
                        }
                    }
                    proof {
                        assert(faces[fa as int].neighbourhoud@.last() == idx1);
                        assert(faces[fa as int].neighbourhoud@.contains(idx1));
                        assert(faces[fb as int].neighbourhoud@.last() == idx2);
                        assert(faces[fb as int].neighbourhoud@.contains(idx2));
                        assert forall|kk: int|
                            0 <= kk < neighbours.len()
                            implies (#[trigger] faces[neighbours[kk].parent as int]).neighbourhoud@
                            .contains(kk as usize) by {
                            if kk < idx1 as int {
                                let p = neighbours[kk].parent;
                                assert(before[p as int].neighbourhoud@.contains(kk as usize));
                                let j = choose|j: int|
                                    0 <= j < before[p as int].neighbourhoud@.len() && before[p
                                        as int].neighbourhoud@[j] == kk as usize;
                                assert(faces[p as int].neighbourhoud@[j] == kk as usize);
                            }
                        }
                    }
                }
            }
            k = k + 1;
        }
        proof {
            assert forall|a: usize, b: usize, i: usize, j: usize|
                ({
                    &&& a < b
                    &&& i < m
                    &&& j < m
                    &&& i != j
                    &&& #[trigger] tri_has_edge(triangles[i as int], a as int, b as int)
                    &&& #[trigger] tri_has_edge(triangles[j as int], a as int, b as int)
                    &&& forall|l: int|
                        0 <= l < m && #[trigger] tri_has_edge(triangles[l], a as int, b as int)
                            ==> l == i || l == j
                }) implies pair_linked(neighbours@, i, j) && pair_linked(neighbours@, j, i) by {
                assert(rec_lists(recs@, a, b, i));
                assert(rec_lists(recs@, a, b, j));
                let k0 = choose|k0: int|
                    0 <= k0 < recs@.len() && (#[trigger] recs@[k0]).a == a && recs@[k0].b == b
                        && exists|l: int| 0 <= l < recs@[k0].tris.len() && recs@[k0].tris[l] == i;
                let k1 = choose|k1: int|
                    0 <= k1 < recs@.len() && (#[trigger] recs@[k1]).a == a && recs@[k1].b == b
                        && exists|l: int| 0 <= l < recs@[k1].tris.len() && recs@[k1].tris[l] == j;
                assert(k0 == k1);
                let r = recs@[k0];
                assert forall|l: int| 0 <= l < r.tris.len() implies r.tris[l] == i || r.tris[l]
                    == j by {
                    assert(tri_has_edge(triangles@[r.tris[l] as int], a as int, b as int));
                }
                let li = choose|li: int| 0 <= li < r.tris.len() && r.tris[li] == i;
                let lj = choose|lj: int| 0 <= lj < r.tris.len() && r.tris[lj] == j;
                assert(li != lj);
                assert(r.tris.len() >= 2);
                if r.tris.len() >= 3 {
                    assert(r.tris[0] < r.tris[1] < r.tris[2]);
                    assert(false);
                }
                assert(r.tris.len() == 2);
                assert((r.tris[0] == i && r.tris[1] == j) || (r.tris[0] == j && r.tris[1]
                    == i));
                assert(pair_linked(neighbours@, r.tris[0], r.tris[1]));
                assert(pair_linked(neighbours@, r.tris[1], r.tris[0]));
            }
        }
        proof {
            assert forall|a: usize, b: usize, x: int, y: int, z: int|
                ({
                    &&& a < b
                    &&& 0 <= x < y < z < m
                    &&& #[trigger] tri_has_edge(triangles[x], a as int, b as int)
                    &&& #[trigger] tri_has_edge(triangles[y], a as int, b as int)
                    &&& #[trigger] tri_has_edge(triangles[z], a as int, b as int)
                }) implies warnings@.contains((a, b)) by {
                assert(rec_lists(recs@, a, b, x as usize));
                assert(rec_lists(recs@, a, b, y as usize));
                assert(rec_lists(recs@, a, b, z as usize));
                let kx = choose|kx: int|
                    0 <= kx < recs@.len() && (#[trigger] recs@[kx]).a == a && recs@[kx].b == b
                        && exists|l: int|
                        0 <= l < recs@[kx].tris.len() && recs@[kx].tris[l] == x as usize;
                let ky = choose|ky: int|
                    0 <= ky < recs@.len() && (#[trigger] recs@[ky]).a == a && recs@[ky].b == b
                        && exists|l: int|
                        0 <= l < recs@[ky].tris.len() && recs@[ky].tris[l] == y as usize;
                let kz = choose|kz: int|
                    0 <= kz < recs@.len() && (#[trigger] recs@[kz]).a == a && recs@[kz].b == b
                        && exists|l: int|
                        0 <= l < recs@[kz].tris.len() && recs@[kz].tris[l] == z as usize;
                assert(kx == ky && ky == kz);
                let r = recs@[kx];
                let lx = choose|lx: int| 0 <= lx < r.tris.len() && r.tris[lx] == x as usize;
                let ly = choose|ly: int| 0 <= ly < r.tris.len() && r.tris[ly] == y as usize;
                let lz = choose|lz: int| 0 <= lz < r.tris.len() && r.tris[lz] == z as usize;
                assert(lx != ly && ly != lz && lx != lz);
                assert(r.tris.len() >= 3);
            }
        }
        Result::Ok(Mesh { faces, neighbours, non_manifold_edges: warnings })
    }

    /// Applies `rot` to every face not yet unfolded; stops and reports
    /// `false` if a rotated coordinate leaves the unfolding range.
    fn rotate_pending(&mut self, rot: &Mat3) -> (ok: bool)
        requires
            old(self).wf(),
            rot.bounded(4 * ROT_SCALE as int),
        ensures
            final(self).wf(),
            final(self).faces.len() == old(self).faces.len(),
            final(self).neighbours == old(self).neighbours,
            final(self).non_manifold_edges == old(self).non_manifold_edges,
            forall|i: int|
                0 <= i < old(self).faces.len() ==> {
                    &&& (#[trigger] final(self).faces[i]).id == old(self).faces[i].id
                    &&& final(self).faces[i].unfolded == old(self).faces[i].unfolded
                    &&& final(self).faces[i].neighbourhoud == old(self).faces[i].neighbourhoud
                },
            forall|i: int|
                0 <= i < old(self).faces.len() && old(self).faces[i].unfolded
                    ==> (#[trigger] final(self).faces[i]) == old(self).faces[i],
            ok ==> forall|i: int|
                0 <= i < old(self).faces.len() && !old(self).faces[i].unfolded ==> {
                    &&& ((#[trigger] final(self).faces[i]).v0.x as int,
                        final(self).faces[i].v0.y as int,
                        final(self).faces[i].v0.z as int,
                    ) == crate::math::mat3_apply_spec(*rot, old(self).faces[i].v0)
                    &&& (final(self).faces[i].v1.x as int, final(self).faces[i].v1.y as int,
                        final(self).faces[i].v1.z as int,
                    ) == crate::math::mat3_apply_spec(*rot, old(self).faces[i].v1)
                    &&& (final(self).faces[i].v2.x as int, final(self).faces[i].v2.y as int,
                        final(self).faces[i].v2.z as int,
                    ) == crate::math::mat3_apply_spec(*rot, old(self).faces[i].v2)
                },
    {
        let n = self.faces.len();
        let mut i: usize = 0;
        while i < n
            invariant
                0 <= i <= n,
                n == self.faces.len(),
                self.wf(),
                rot.bounded(4 * ROT_SCALE as int),
                self.faces.len() == old(self).faces.len(),
                self.neighbours == old(self).neighbours,
                self.non_manifold_edges == old(self).non_manifold_edges,
                forall|j: int|
                    0 <= j < n ==> {
                        &&& (#[trigger] self.faces[j]).id == old(self).faces[j].id
                        &&& self.faces[j].unfolded == old(self).faces[j].unfolded
                        &&& self.faces[j].neighbourhoud == old(self).faces[j].neighbourhoud
                    },
                forall|j: int|
                    0 <= j < n && old(self).faces[j].unfolded ==> (#[trigger] self.faces[j])
                        == old(self).faces[j],
                forall|j: int| i <= j < n ==> (#[trigger] self.faces[j]) == old(self).faces[j],
                forall|j: int|
                    0 <= j < i && !old(self).faces[j].unfolded ==> {
                        &&& ((#[trigger] self.faces[j]).v0.x as int, self.faces[j].v0.y as int,
                            self.faces[j].v0.z as int,
                        ) == crate::math::mat3_apply_spec(*rot, old(self).faces[j].v0)
                        &&& (self.faces[j].v1.x as int, self.faces[j].v1.y as int,
                            self.faces[j].v1.z as int,
                        ) == crate::math::mat3_apply_spec(*rot, old(self).faces[j].v1)
                        &&& (self.faces[j].v2.x as int, self.faces[j].v2.y as int,
                            self.faces[j].v2.z as int,
                        ) == crate::math::mat3_apply_spec(*rot, old(self).faces[j].v2)
                    },
            decreases n - i,
        {
            if !self.faces[i].unfolded {
                let ok = self.faces[i].rotate(rot);
                if !ok {
                    return false;
                }
            }
            i = i + 1;
        }
        true
    }

    /// Shifts every face not yet unfolded by `-d`; stops and reports
    /// `false` if a shifted coordinate leaves the unfolding range.
    fn translate_pending(&mut self, d: &Vec3) -> (ok: bool)
        requires
            old(self).wf(),
            d.bounded(MAX_UNFOLD_COORD as int),
        ensures
            final(self).wf(),
            final(self).faces.len() == old(self).faces.len(),
            final(self).neighbours == old(self).neighbours,
            final(self).non_manifold_edges == old(self).non_manifold_edges,
            forall|i: int|
                0 <= i < old(self).faces.len() ==> {
                    &&& (#[trigger] final(self).faces[i]).id == old(self).faces[i].id
                    &&& final(self).faces[i].unfolded == old(self).faces[i].unfolded
                    &&& final(self).faces[i].neighbourhoud == old(self).faces[i].neighbourhoud
                },
            forall|i: int|
                0 <= i < old(self).faces.len() && old(self).faces[i].unfolded
                    ==> (#[trigger] final(self).faces[i]) == old(self).faces[i],
            ok ==> forall|i: int|
                0 <= i < old(self).faces.len() && !old(self).faces[i].unfolded ==> {
                    &&& (#[trigger] final(self).faces[i]).v0.x == old(self).faces[i].v0.x - d.x
                    &&& final(self).faces[i].v0.y == old(self).faces[i].v0.y - d.y
                    &&& final(self).faces[i].v0.z == old(self).faces[i].v0.z - d.z
                    &&& final(self).faces[i].v1.x == old(self).faces[i].v1.x - d.x
                    &&& final(self).faces[i].v1.y == old(self).faces[i].v1.y - d.y
                    &&& final(self).faces[i].v1.z == old(self).faces[i].v1.z - d.z
                    &&& final(self).faces[i].v2.x == old(self).faces[i].v2.x - d.x
                    &&& final(self).faces[i].v2.y == old(self).faces[i].v2.y - d.y
                    &&& final(self).faces[i].v2.z == old(self).faces[i].v2.z - d.z
                    &&& final(self).faces[i].normal == old(self).faces[i].normal
                },
    {
        let n = self.faces.len();
        let mut i: usize = 0;
        while i < n
            invariant
                0 <= i <= n,
                n == self.faces.len(),
                self.wf(),
                d.bounded(MAX_UNFOLD_COORD as int),
                self.faces.len() == old(self).faces.len(),
                self.neighbours == old(self).neighbours,
                self.non_manifold_edges == old(self).non_manifold_edges,
                forall|j: int|
                    0 <= j < n ==> {
                        &&& (#[trigger] self.faces[j]).id == old(self).faces[j].id
                        &&& self.faces[j].unfolded == old(self).faces[j].unfolded
                        &&& self.faces[j].neighbourhoud == old(self).faces[j].neighbourhoud
                    },
                forall|j: int|
                    0 <= j < n && old(self).faces[j].unfolded ==> (#[trigger] self.faces[j])
                        == old(self).faces[j],
                forall|j: int| i <= j < n ==> (#[trigger] self.faces[j]) == old(self).faces[j],
                forall|j: int|
                    0 <= j < i && !old(self).faces[j].unfolded ==> {
                        &&& (#[trigger] self.faces[j]).v0.x == old(self).faces[j].v0.x - d.x
                        &&& self.faces[j].v0.y == old(self).faces[j].v0.y - d.y
                        &&& self.faces[j].v0.z == old(self).faces[j].v0.z - d.z
                        &&& self.faces[j].v1.x == old(self).faces[j].v1.x - d.x
                        &&& self.faces[j].v1.y == old(self).faces[j].v1.y - d.y
                        &&& self.faces[j].v1.z == old(self).faces[j].v1.z - d.z
                        &&& self.faces[j].v2.x == old(self).faces[j].v2.x - d.x
                        &&& self.faces[j].v2.y == old(self).faces[j].v2.y - d.y
                        &&& self.faces[j].v2.z == old(self).faces[j].v2.z - d.z
                        &&& self.faces[j].normal == old(self).faces[j].normal
                    },
            decreases n - i,
        {
            if !self.faces[i].unfolded {
                let ok = self.faces[i].translate_back(d);
                if !ok {
                    return false;
                }
            }
            i = i + 1;
        }
        true
    }

    /// Seed placement: translates the pending faces so one vertex of the
    /// seed sits at the origin, then rotates them twice (about `x`, then
    /// about `z`) so the seed's normal points along `+y`, and marks the
    /// seed as unfolded. A seed already unfolded is left untouched.
    pub fn init_unfolding(&mut self, face_id: usize) -> (r: Result<(), UnfoldError>)
        requires
            old(self).wf(),
        ensures
            final(self).wf(),
            final(self).faces.len() == old(self).faces.len(),
            final(self).neighbours == old(self).neighbours,
            final(self).non_manifold_edges == old(self).non_manifold_edges,
            forall|i: int|
                0 <= i < old(self).faces.len() ==> {
                    &&& (#[trigger] final(self).faces[i]).id == old(self).faces[i].id
                    &&& final(self).faces[i].neighbourhoud == old(self).faces[i].neighbourhoud
                },
            forall|i: int|
                0 <= i < old(self).faces.len() && old(self).faces[i].unfolded
                    ==> (#[trigger] final(self).faces[i]) == old(self).faces[i],
            forall|i: int|
                0 <= i < old(self).faces.len() && i != face_id
                    ==> (#[trigger] final(self).faces[i]).unfolded == old(self).faces[i].unfolded,
            r is Err ==> (r == Result::<(), UnfoldError>::Err(UnfoldError::InvalidSeed) <==>
                face_id >= old(self).faces.len()),
            r is Ok ==> face_id < old(self).faces.len() && final(self).faces[face_id
                as int].unfolded,
            face_id < old(self).faces.len() && old(self).faces[face_id as int].unfolded ==> (r
                == Result::<(), UnfoldError>::Ok(()) && *final(self) == *old(self)),
            r is Ok && !old(self).faces[face_id as int].unfolded ==> ({
                let seedf = old(self).faces[face_id as int];
                let rx = tilt_rotation_spec(seedf.normal);
                let rz = yaw_rotation_spec(seed_mid_normal_spec(seedf));
                &&& forall|i: int|
                    0 <= i < old(self).faces.len() && !old(self).faces[i].unfolded ==> {
                        &&& ((#[trigger] final(self).faces[i]).v0.x as int,
                            final(self).faces[i].v0.y as int,
                            final(self).faces[i].v0.z as int,
                        ) == seed_chain_spec(old(self).faces[i].v0, seedf.v0, rx, rz)
                        &&& (final(self).faces[i].v1.x as int,
                            final(self).faces[i].v1.y as int,
                            final(self).faces[i].v1.z as int,
                        ) == seed_chain_spec(old(self).faces[i].v1, seedf.v0, rx, rz)
                        &&& (final(self).faces[i].v2.x as int,
                            final(self).faces[i].v2.y as int,
                            final(self).faces[i].v2.z as int,
                        ) == seed_chain_spec(old(self).faces[i].v2, seedf.v0, rx, rz)
                    }
                &&& final(self).faces[face_id as int].v0.x == 0
                &&& final(self).faces[face_id as int].v0.y == 0
                &&& final(self).faces[face_id as int].v0.z == 0
            }),
    {
        if face_id >= self.faces.len() {
            return Result::Err(UnfoldError::InvalidSeed);
        }
        if self.faces[face_id].unfolded {
            return Result::Ok(());
        }
        let v0 = self.faces[face_id].v0;
        if !self.translate_pending(&v0) {
            return Result::Err(UnfoldError::CoordinateOverflow);
        }
        let ghost s1 = self.faces@;
        let nrm = self.faces[face_id].normal;
        proof {
            lemma_face_normal_bound(self.faces@[face_id as int]);
            lemma_mul_bound(nrm.y as int, 0x8_0000_0000_0000, nrm.y as int, 0x8_0000_0000_0000);
            lemma_mul_bound(nrm.z as int, 0x8_0000_0000_0000, nrm.z as int, 0x8_0000_0000_0000);
            lemma_square_nonneg(nrm.y as int);
            lemma_square_nonneg(nrm.z as int);
        }
        let rx = if nrm.y == 0 && nrm.z == 0 {
            Mat3::identity()
        } else {
            let nn_x = nrm.y * nrm.y + nrm.z * nrm.z;
            proof {
                if nrm.y != 0 {
                    assert(nrm.y * nrm.y >= 1) by (nonlinear_arith)
                        requires
                            nrm.y != 0,
                    {
                    }
                } else {
                    assert(nrm.z * nrm.z >= 1) by (nonlinear_arith)
                        requires
                            nrm.z != 0,
                    {
                    }
                }
            }
            let len = isqrt(nn_x);
            proof {
                assert(len >= 1) by (nonlinear_arith)
                    requires
                        nn_x >= 1,
                        len * len <= nn_x < (len + 1) * (len + 1),
                        len >= 0,
                {
                }
                lemma_component_le_root(nrm.y as int, nn_x as int, len as int);
                lemma_component_le_root(nrm.z as int, nn_x as int, len as int);
                lemma_mul_bound(nrm.y as int, 0x8_0000_0000_0000, ROT_SCALE as int,
                    ROT_SCALE as int);
                lemma_mul_bound(nrm.z as int, 0x8_0000_0000_0000, ROT_SCALE as int,
                    ROT_SCALE as int);
                crate::math::lemma_div_tz_scale(nrm.y as int, len as int, ROT_SCALE as int);
                crate::math::lemma_div_tz_scale(-(nrm.z as int), len as int, ROT_SCALE as int);
            }
            let c = crate::math::div_i(nrm.y * ROT_SCALE, len);
            let s = crate::math::div_i(-nrm.z * ROT_SCALE, len);
            Mat3 { r00: ROT_SCALE, r01: 0, r02: 0, r10: 0, r11: c, r12: -s, r20: 0, r21: s, r22: c }
        };
        proof {
            assert(rx == tilt_rotation_spec(nrm));
            assert(rx.bounded(4 * ROT_SCALE as int));
        }
        if !self.rotate_pending(&rx) {
            return Result::Err(UnfoldError::CoordinateOverflow);
        }
        let ghost s2 = self.faces@;
        let nrm2 = self.faces[face_id].normal;
        proof {
            lemma_face_normal_bound(self.faces@[face_id as int]);
            lemma_mul_bound(nrm2.x as int, 0x8_0000_0000_0000, nrm2.x as int,
                0x8_0000_0000_0000);
            lemma_mul_bound(nrm2.y as int, 0x8_0000_0000_0000, nrm2.y as int,
                0x8_0000_0000_0000);
            lemma_square_nonneg(nrm2.x as int);
            lemma_square_nonneg(nrm2.y as int);
        }
        let rz = if nrm2.x == 0 && nrm2.y == 0 {
            Mat3::identity()
        } else {
            let nn_z = nrm2.x * nrm2.x + nrm2.y * nrm2.y;
            proof {
                if nrm2.x != 0 {
                    assert(nrm2.x * nrm2.x >= 1) by (nonlinear_arith)
                        requires
                            nrm2.x != 0,
                    {
                    }
                } else {
                    assert(nrm2.y * nrm2.y >= 1) by (nonlinear_arith)
                        requires
                            nrm2.y != 0,
                    {
                    }
                }
            }
            let len2 = isqrt(nn_z);
            proof {
                assert(len2 >= 1) by (nonlinear_arith)
                    requires
                        nn_z >= 1,
                        len2 * len2 <= nn_z < (len2 + 1) * (len2 + 1),
                        len2 >= 0,
                {
                }
                lemma_component_le_root(nrm2.x as int, nn_z as int, len2 as int);
                lemma_component_le_root(nrm2.y as int, nn_z as int, len2 as int);
                lemma_mul_bound(nrm2.x as int, 0x8_0000_0000_0000, ROT_SCALE as int,
                    ROT_SCALE as int);
                lemma_mul_bound(nrm2.y as int, 0x8_0000_0000_0000, ROT_SCALE as int,
                    ROT_SCALE as int);
                crate::math::lemma_div_tz_scale(nrm2.y as int, len2 as int, ROT_SCALE as int);
                crate::math::lemma_div_tz_scale(nrm2.x as int, len2 as int, ROT_SCALE as int);
            }
            let c2 = crate::math::div_i(nrm2.y * ROT_SCALE, len2);
            let s2 = crate::math::div_i(nrm2.x * ROT_SCALE, len2);
            Mat3 {
                r00: c2,
                r01: -s2,
                r02: 0,
                r10: s2,
                r11: c2,
                r12: 0,
                r20: 0,
                r21: 0,
                r22: ROT_SCALE,
            }
        };
        proof {
            assert(rz == yaw_rotation_spec(nrm2));
            assert(rz.bounded(4 * ROT_SCALE as int));
        }
        if !self.rotate_pending(&rz) {
            return Result::Err(UnfoldError::CoordinateOverflow);
        }
        self.faces[face_id].unfolded = true;
        proof {
            let oldf = old(self).faces@;
            let seedf = oldf[face_id as int];
            assert(nrm == seedf.normal);
            assert forall|i: int|
                0 <= i < oldf.len() && !oldf[i].unfolded implies {
                &&& s2[i].v0 == seed_half_chain_spec(oldf[i].v0, seedf.v0, rx)
                &&& s2[i].v1 == seed_half_chain_spec(oldf[i].v1, seedf.v0, rx)
                &&& s2[i].v2 == seed_half_chain_spec(oldf[i].v2, seedf.v0, rx)
            } by {
                assert(s1[i].v0.x == oldf[i].v0.x - seedf.v0.x);
            }
            assert(nrm2 == seed_mid_normal_spec(seedf));
            assert forall|i: int|
                0 <= i < oldf.len() && !oldf[i].unfolded implies {
                &&& ((#[trigger] self.faces[i]).v0.x as int, self.faces[i].v0.y as int,
                    self.faces[i].v0.z as int,
                ) == seed_chain_spec(oldf[i].v0, seedf.v0, rx, rz)
                &&& (self.faces[i].v1.x as int, self.faces[i].v1.y as int,
                    self.faces[i].v1.z as int,
                ) == seed_chain_spec(oldf[i].v1, seedf.v0, rx, rz)
                &&& (self.faces[i].v2.x as int, self.faces[i].v2.y as int,
                    self.faces[i].v2.z as int,
                ) == seed_chain_spec(oldf[i].v2, seedf.v0, rx, rz)
            } by {
                assert(s2[i].v0 == seed_half_chain_spec(oldf[i].v0, seedf.v0, rx));
            }
            lemma_apply_zero(rx);
            lemma_apply_zero(rz);
            assert(seed_half_chain_spec(seedf.v0, seedf.v0, rx) == (Vec3 {
                x: 0i128,
                y: 0i128,
                z: 0i128,
            }));
            assert(seed_chain_spec(seedf.v0, seedf.v0, rx, rz) == (0int, 0int, 0int));
        }
        Result::Ok(())
    }

    /// Unfolds every face reachable from `seed` through neighbour
    /// relations: the seed is flattened into the plane `y == const` and
    /// each reachable face is folded about its shared edge onto the plane
    /// of its already-flat parent. Faces flattened by an earlier pass are
    /// never touched again. The report lists the faces of the patch and
    /// every colliding pair among them; a collision is a geometric
    /// outcome for the layout stage, not an error.
    #[verifier::rlimit(100)]
    pub fn unfold(&mut self, seed: usize) -> (r: Result<UnfoldReport, UnfoldError>)
        requires
            old(self).wf(),
        ensures
            final(self).wf(),
            final(self).faces.len() == old(self).faces.len(),
            final(self).neighbours.len() == old(self).neighbours.len(),
            final(self).non_manifold_edges == old(self).non_manifold_edges,
            forall|i: int|
                0 <= i < old(self).faces.len() ==> {
                    &&& (#[trigger] final(self).faces[i]).id == old(self).faces[i].id
                    &&& final(self).faces[i].neighbourhoud == old(self).faces[i].neighbourhoud
                },
            forall|i: int|
                0 <= i < old(self).faces.len() && old(self).faces[i].unfolded
                    ==> (#[trigger] final(self).faces[i]) == old(self).faces[i],
            r == Result::<UnfoldReport, UnfoldError>::Err(UnfoldError::InvalidSeed) <==> seed
                >= old(self).faces.len(),
            (seed < old(self).faces.len() && (forall|i: int|
                0 <= i < old(self).faces.len() ==> (#[trigger] old(self).faces[i]).unfolded))
                ==> r is Ok,
            match r {
                Result::Ok(rep) => {
                    &&& forall|k: int|
                        0 <= k < rep.patch.len() ==> (#[trigger] rep.patch[k])
                            < final(self).faces.len() && final(self).faces[rep.patch[k]
                            as int].unfolded
                    &&& forall|k: int, l: int|
                        0 <= k < l < rep.patch.len() ==> rep.patch[k] != rep.patch[l]
                    &&& rep.patch.len() >= 1
                    &&& rep.patch[0] == seed
                    &&& forall|k: int|
                        1 <= k < rep.patch.len() ==> !old(self).faces[(#[trigger] rep.patch[k])
                            as int].unfolded
                    &&& forall|k: int|
                        1 <= k < rep.patch.len() ==> folded_from(
                            final(self).faces@,
                            final(self).neighbours@,
                            #[trigger] rep.patch[k],
                        )
                    &&& forall|w: int|
                        0 <= w < rep.collisions.len() ==> collision_sound(
                            final(self).faces@,
                            rep.patch@,
                            #[trigger] rep.collisions[w],
                        )
                    &&& forall|k: int, l: int|
                        0 <= k < l < rep.patch.len() && collide_spec(
                            final(self).faces[rep.patch[k] as int],
                            final(self).faces[rep.patch[l] as int],
                        ) ==> rep.collisions@.contains(
                            (#[trigger] rep.patch[k], #[trigger] rep.patch[l]),
                        )
                    &&& (forall|i: int|
                        0 <= i < old(self).faces.len() ==> !(#[trigger] old(
                            self,
                        ).faces[i]).unfolded) ==> forall|j: int, k: nat|
                        0 <= j < final(self).faces.len() && #[trigger] reaches_within(
                            final(self).faces@,
                            final(self).neighbours@,
                            seed as int,
                            j,
                            k,
                        ) ==> final(self).faces[j].unfolded
                },
                Result::Err(e) => true,
            },
    {
        match self.init_unfolding(seed) {
            Result::Err(e) => {
                return Result::Err(e);
            },
            Result::Ok(_) => {},
        }
        let n = self.faces.len();
        let mut patch: Vec<usize> = Vec::new();
        patch.push(seed);
        let mut queue: Vec<usize> = Vec::new();
        queue.push(seed);
        let ghost marked0 = Set::<int>::new(
            |i: int| 0 <= i < n && self.faces[i].unfolded,
        );
        proof {
            vstd::set_lib::lemma_int_range(0, n as int);
            vstd::set_lib::lemma_len_subset(marked0, vstd::set_lib::set_int_range(0, n as int));
            assert(marked0.contains(seed as int));
            assert(marked0.len() >= 1) by {
                let m1 = marked0.remove(seed as int);
                vstd::set_lib::lemma_len_subset(m1, marked0);
                assert(marked0 =~= m1.insert(seed as int));
            }
        }
        let ghost mut marked = marked0;
        let ghost fresh: bool = forall|i: int| 0 <= i < n ==> !(#[trigger] old(self).faces[i]).unfolded;
        proof {
            if fresh {
                assert(queue@[0] == seed);
                assert forall|i2: int|
                    0 <= i2 < n && (#[trigger] self.faces[i2]).unfolded implies queue@.contains(
                    i2 as usize,
                ) || children_unfolded(self.faces@, self.neighbours@, i2) by {
                    if i2 == seed as int {
                        assert(queue@[0] == i2 as usize);
                    } else {
                        assert(!self.faces[i2].unfolded);
                    }
                }
            }
        }
        let mut fuel: usize = n;
        while queue.len() > 0 && fuel > 0
            invariant
                self.wf(),
                n == self.faces.len(),
                self.faces.len() == old(self).faces.len(),
                self.neighbours.len() == old(self).neighbours.len(),
                self.non_manifold_edges == old(self).non_manifold_edges,
                forall|i: int|
                    0 <= i < n ==> {
                        &&& (#[trigger] self.faces[i]).id == old(self).faces[i].id
                        &&& self.faces[i].neighbourhoud == old(self).faces[i].neighbourhoud
                    },
                forall|i: int|
                    0 <= i < n && old(self).faces[i].unfolded ==> (#[trigger] self.faces[i])
                        == old(self).faces[i],
                forall|i: int|
                    0 <= i < n && old(self).faces[i].unfolded
                        ==> (#[trigger] self.faces[i]).unfolded,
                marked =~= Set::<int>::new(|i: int| 0 <= i < n && self.faces[i].unfolded),
                marked.finite(),
                marked.len() <= n,
                marked0 <= marked,
                fuel as int >= queue.len() + n - marked.len(),
                forall|k: int| 0 <= k < queue.len() ==> (#[trigger] queue[k]) < n,
                forall|k: int|
                    0 <= k < queue.len() ==> self.faces[(#[trigger] queue[k]) as int].unfolded,
                forall|k: int, l: int| 0 <= k < l < queue.len() ==> queue[k] != queue[l],
                fresh ==> forall|i2: int|
                    0 <= i2 < n && (#[trigger] self.faces[i2]).unfolded ==> queue@.contains(
                        i2 as usize,
                    ) || children_unfolded(self.faces@, self.neighbours@, i2),
                forall|k: int| 0 <= k < patch.len() ==> (#[trigger] patch[k]) < n,
                forall|k: int|
                    0 <= k < patch.len() ==> self.faces[(#[trigger] patch[k]) as int].unfolded,
                forall|k: int, l: int| 0 <= k < l < patch.len() ==> patch[k] != patch[l],
                patch.len() >= 1,
                patch[0] == seed,
                forall|k: int|
                    1 <= k < patch.len() ==> !old(self).faces[(#[trigger] patch[k])
                        as int].unfolded,
                forall|k: int|
                    1 <= k < patch.len() ==> folded_from(
                        self.faces@,
                        self.neighbours@,
                        #[trigger] patch[k],
                    ),
                forall|k: int, l: int|
                    0 <= k < patch.len() && 0 <= l < patch.len() && k != l
                        ==> patch[k] != patch[l],
            decreases fuel,
        {
            let f = queue[queue.len() - 1];
            let ghost qbefore = queue@;
            queue.pop();
            fuel = fuel - 1;
            proof {
                assert(!queue@.contains(f)) by {
                    if queue@.contains(f) {
                        let w = choose|w: int| 0 <= w < queue@.len() && queue@[w] == f;
                        assert(qbefore[w] == qbefore[qbefore.len() - 1]);
                    }
                }
                if fresh {
                    assert forall|i2: int|
                        0 <= i2 < n && (#[trigger] self.faces[i2]).unfolded && i2 != f as int
                        implies queue@.contains(i2 as usize) || children_unfolded(
                        self.faces@,
                        self.neighbours@,
                        i2,
                    ) by {
                        if qbefore.contains(i2 as usize) && !children_unfolded(
                            self.faces@,
                            self.neighbours@,
                            i2,
                        ) {
                            let w = choose|w: int| 0 <= w < qbefore.len() && qbefore[w] == i2 as usize;
                            assert(w < qbefore.len() - 1);
                            assert(queue@[w] == i2 as usize);
                        }
                    }
                }
            }
            let deg = self.faces[f].neighbourhoud.len();
            let mut j: usize = 0;
            while j < deg
                invariant
                    0 <= j <= deg,
                    f < n,
                    n == self.faces.len(),
                    deg == self.faces[f as int].neighbourhoud.len(),
                    self.wf(),
                    self.faces.len() == old(self).faces.len(),
                    self.neighbours.len() == old(self).neighbours.len(),
                    self.non_manifold_edges == old(self).non_manifold_edges,
                    forall|i: int|
                        0 <= i < n ==> {
                            &&& (#[trigger] self.faces[i]).id == old(self).faces[i].id
                            &&& self.faces[i].neighbourhoud == old(self).faces[i].neighbourhoud
                        },
                    forall|i: int|
                        0 <= i < n && old(self).faces[i].unfolded ==> (#[trigger] self.faces[i])
                            == old(self).faces[i],
                    forall|i: int|
                        0 <= i < n && old(self).faces[i].unfolded
                            ==> (#[trigger] self.faces[i]).unfolded,
                    marked =~= Set::<int>::new(|i: int| 0 <= i < n && self.faces[i].unfolded),
                    marked.finite(),
                    marked.len() <= n,
                    marked0 <= marked,
                    fuel as int >= queue.len() + n - marked.len(),
                    forall|k: int| 0 <= k < queue.len() ==> (#[trigger] queue[k]) < n,
                    forall|k: int|
                        0 <= k < queue.len() ==> self.faces[(#[trigger] queue[k]) as int].unfolded,
                    forall|k: int, l: int| 0 <= k < l < queue.len() ==> queue[k] != queue[l],
                    self.faces[f as int].unfolded,
                    !queue@.contains(f),
                    fresh ==> forall|i2: int|
                        0 <= i2 < n && (#[trigger] self.faces[i2]).unfolded && i2 != f as int
                            ==> queue@.contains(i2 as usize) || children_unfolded(
                            self.faces@,
                            self.neighbours@,
                            i2,
                        ),
                    fresh ==> forall|l: int|
                        0 <= l < j ==> self.faces[self.neighbours[(#[trigger] self.faces[f
                            as int].neighbourhoud[l]) as int].child as int].unfolded,
                    forall|k: int| 0 <= k < patch.len() ==> (#[trigger] patch[k]) < n,
                    forall|k: int|
                        0 <= k < patch.len() ==> self.faces[(#[trigger] patch[k]) as int].unfolded,
                    forall|k: int, l: int|
                        0 <= k < patch.len() && 0 <= l < patch.len() && k != l
                            ==> patch[k] != patch[l],
                    patch.len() >= 1,
                    patch[0] == seed,
                    forall|k: int|
                        1 <= k < patch.len() ==> !old(self).faces[(#[trigger] patch[k])
                            as int].unfolded,
                    forall|k: int|
                        1 <= k < patch.len() ==> folded_from(
                            self.faces@,
                            self.neighbours@,
                            #[trigger] patch[k],
                        ),
                decreases deg - j,
            {
                let ghost faces_step0 = self.faces@;
                let ghost nbs_step0 = self.neighbours@;
                let nb_idx = self.faces[f].neighbourhoud[j];
                let mut nb = self.neighbours[nb_idx];
                let child = nb.child;
                if !self.faces[child].unfolded {
                    let reload_ok = {
                        let parent_face = &self.faces[f];
                        let child_face = &self.faces[child];
                        nb.reload(parent_face, child_face)
                    };
                    match reload_ok {
                        Result::Ok(_) => {
                            let ghost nbs_before = self.neighbours@;
                            self.neighbours[nb_idx] = nb;
                            proof {
                                assert forall|kk: int|
                                    0 <= kk < self.neighbours.len() implies {
                                    &&& (#[trigger] self.neighbours[kk]).parent
                                        < self.faces.len()
                                    &&& self.neighbours[kk].child < self.faces.len()
                                    &&& self.neighbours[kk].parent != self.neighbours[kk].child
                                    &&& self.neighbours[kk].p_futherest < 3
                                    &&& self.neighbours[kk].c_futherest < 3
                                    &&& self.neighbours[kk].rot.bounded(4 * ROT_SCALE as int)
                                } by {
                                    if kk != nb_idx as int {
                                        assert(self.neighbours@[kk] == nbs_before[kk]);
                                    }
                                }
                                assert(self.wf());
                            }
                            let p1i = (nb.p_futherest + 1) % 3;
                            let pivot = self.faces[f].vtx(p1i);
                            let ghost faces_prefold = self.faces@;
                            let ok = nb.align_from_here(&mut self.faces[child], &pivot);
                            proof {
                                assert forall|i2: int|
                                    0 <= i2 < n && i2 != child as int
                                    implies (#[trigger] self.faces[i2]) == faces_prefold[i2] by {
                                }
                                assert(self.wf());
                            }
                            if !ok {
                                return Result::Err(UnfoldError::CoordinateOverflow);
                            }
                            proof {
                                assert(!marked.contains(child as int));
                            }
                            self.faces[child].unfolded = true;
                            proof {
                                marked = marked.insert(child as int);
                                assert(marked =~= Set::<int>::new(
                                    |i: int| 0 <= i < n && self.faces[i].unfolded,
                                ));
                                vstd::set_lib::lemma_int_range(0, n as int);
                                vstd::set_lib::lemma_len_subset(
                                    marked,
                                    vstd::set_lib::set_int_range(0, n as int),
                                );
                            }
                            let ghost q_pre = queue@;
                            let ghost patch_pre = patch@;
                            patch.push(child);
                            queue.push(child);
                            proof {
                                assert(p1i as int == (nb.p_futherest + 1) % 3);
                                assert(self.faces@[f as int].neighbourhoud@[j as int]
                                    == nb_idx);
                                assert(self.faces@[f as int].neighbourhoud@.contains(nb_idx));
                                assert(folded_from(self.faces@, self.neighbours@, child)) by {
                                    assert(fold_rotation_spec(
                                        self.faces@[f as int],
                                        faces_prefold[child as int],
                                        self.neighbours@[nb_idx as int].p_futherest as int,
                                        self.neighbours@[nb_idx as int].c_futherest as int,
                                    ) == self.neighbours@[nb_idx as int].rot);
                                }
                                assert forall|k: int|
                                    1 <= k < patch.len() implies folded_from(
                                    self.faces@,
                                    self.neighbours@,
                                    #[trigger] patch[k],
                                ) by {
                                    if k < patch.len() - 1 {
                                        assert(folded_from(faces_step0, nbs_step0, patch_pre[k]));
                                        let (par, nbk, pre) = choose|par: int, nbk: int, pre: Face|
                                            {
                                                &&& 0 <= par < faces_step0.len()
                                                &&& faces_step0[par].unfolded
                                                &&& 0 <= nbk < nbs_step0.len()
                                                &&& faces_step0[par].neighbourhoud@.contains(
                                                    nbk as usize,
                                                )
                                                &&& nbs_step0[nbk].child == patch_pre[k]
                                                &&& reload_check_spec(
                                                    faces_step0[par],
                                                    pre,
                                                    nbs_step0[nbk].p_futherest as int,
                                                    nbs_step0[nbk].c_futherest as int,
                                                ) is None
                                                &&& #[trigger] fold_rotation_spec(
                                                    faces_step0[par],
                                                    pre,
                                                    nbs_step0[nbk].p_futherest as int,
                                                    nbs_step0[nbk].c_futherest as int,
                                                ) == nbs_step0[nbk].rot
                                                &&& ({
                                                    let pivot = faces_step0[par].vtx_spec(
                                                        (nbs_step0[nbk].p_futherest + 1) % 3,
                                                    );
                                                    &&& (
                                                        faces_step0[patch_pre[k] as int].v0.x
                                                            as int,
                                                        faces_step0[patch_pre[k] as int].v0.y
                                                            as int,
                                                        faces_step0[patch_pre[k] as int].v0.z
                                                            as int,
                                                    ) == fold_point_spec(
                                                        nbs_step0[nbk].rot,
                                                        pivot,
                                                        pre.v0,
                                                    )
                                                    &&& (
                                                        faces_step0[patch_pre[k] as int].v1.x
                                                            as int,
                                                        faces_step0[patch_pre[k] as int].v1.y
                                                            as int,
                                                        faces_step0[patch_pre[k] as int].v1.z
                                                            as int,
                                                    ) == fold_point_spec(
                                                        nbs_step0[nbk].rot,
                                                        pivot,
                                                        pre.v1,
                                                    )
                                                    &&& (
                                                        faces_step0[patch_pre[k] as int].v2.x
                                                            as int,
                                                        faces_step0[patch_pre[k] as int].v2.y
                                                            as int,
                                                        faces_step0[patch_pre[k] as int].v2.z
                                                            as int,
                                                    ) == fold_point_spec(
                                                        nbs_step0[nbk].rot,
                                                        pivot,
                                                        pre.v2,
                                                    )
                                                })
                                            };
                                        assert(par != child as int);
                                        assert(self.faces@[par] == faces_step0[par]);
                                        assert(patch_pre[k] as int != child as int);
                                        assert(self.faces@[patch_pre[k] as int]
                                            == faces_step0[patch_pre[k] as int]);
                                        assert(nbs_step0[nbk].child != child);
                                        assert(nbk != nb_idx as int);
                                        assert(self.neighbours@[nbk] == nbs_step0[nbk]);
                                        assert(patch[k] == patch_pre[k]);
                                    } else {
                                        assert(patch[k] == child);
                                    }
                                }
                                assert(queue@[queue@.len() - 1] == child);
                                if fresh {
                                    assert forall|i2: int|
                                        0 <= i2 < n && (#[trigger] self.faces[i2]).unfolded
                                            && i2 != f as int implies queue@.contains(
                                        i2 as usize,
                                    ) || children_unfolded(
                                        self.faces@,
                                        self.neighbours@,
                                        i2,
                                    ) by {
                                        if i2 != child as int && q_pre.contains(i2 as usize)
                                            && !children_unfolded(
                                            self.faces@,
                                            self.neighbours@,
                                            i2,
                                        ) {
                                            let w = choose|w: int|
                                                0 <= w < q_pre.len() && q_pre[w] == i2 as usize;
                                            assert(queue@[w] == i2 as usize);
                                        }
                                        if i2 == child as int {
                                            assert(queue@.contains(i2 as usize));
                                        }
                                    }
                                }
                            }
                        },
                        Result::Err(e2) => {
                            return Result::Err(e2);
                        },
                    }
                }
                j = j + 1;
            }
        }
        proof {
            assert(queue.len() == 0);
            if fresh {
                assert forall|i2: int, l: int|
                    0 <= i2 < n && (#[trigger] self.faces[i2]).unfolded && 0 <= l
                        < self.faces[i2].neighbourhoud.len() implies (
                #[trigger] self.faces[i2].neighbourhoud[l]) < self.neighbours.len()
                    && self.neighbours[self.faces[i2].neighbourhoud[l] as int].child < n
                    && self.faces[self.neighbours[self.faces[i2].neighbourhoud[l]
                    as int].child as int].unfolded by {
                    assert(!queue@.contains(i2 as usize));
                    assert(children_unfolded(self.faces@, self.neighbours@, i2));
                }
                assert forall|j2: int, k: nat|
                    0 <= j2 < n && #[trigger] reaches_within(
                        self.faces@,
                        self.neighbours@,
                        seed as int,
                        j2,
                        k,
                    ) implies self.faces[j2].unfolded by {
                    lemma_closure_reaches(
                        self.faces@,
                        self.neighbours@,
                        seed as int,
                        j2,
                        k,
                    );
                }
            }
        }
        let report = self.collect_collisions(patch);
        Result::Ok(report)
    }

    /// Collects every colliding pair among the faces of `patch`.
    fn collect_collisions(&self, patch: Vec<usize>) -> (rep: UnfoldReport)
        requires
            self.wf(),
            forall|k: int| 0 <= k < patch.len() ==> (#[trigger] patch[k]) < self.faces.len(),
        ensures
            rep.patch == patch,
            forall|w: int|
                0 <= w < rep.collisions.len() ==> collision_sound(
                    self.faces@,
                    patch@,
                    #[trigger] rep.collisions[w],
                ),
            forall|k: int, l: int|
                0 <= k < l < patch.len() && collide_spec(
                    self.faces[patch[k] as int],
                    self.faces[patch[l] as int],
                ) ==> rep.collisions@.contains((#[trigger] patch[k], #[trigger] patch[l])),
    {
        let mut collisions: Vec<(usize, usize)> = Vec::new();
        let mut k: usize = 0;
        while k < patch.len()
            invariant
                0 <= k <= patch.len(),
                self.wf(),
                forall|kk: int| 0 <= kk < patch.len() ==> (#[trigger] patch[kk])
                    < self.faces.len(),
                forall|w: int|
                    0 <= w < collisions.len() ==> collision_sound(
                        self.faces@,
                        patch@,
                        #[trigger] collisions[w],
                    ),
                forall|kk: int, ll: int|
                    0 <= kk < ll < patch.len() && kk < k && collide_spec(
                        self.faces[patch[kk] as int],
                        self.faces[patch[ll] as int],
                    ) ==> collisions@.contains((#[trigger] patch[kk], #[trigger] patch[ll])),
            decreases patch.len() - k,
        {
            let mut l: usize = k + 1;
            while l < patch.len()
                invariant
                    k < patch.len(),
                    k + 1 <= l <= patch.len(),
                    self.wf(),
                    forall|kk: int| 0 <= kk < patch.len() ==> (#[trigger] patch[kk])
                        < self.faces.len(),
                    forall|w: int|
                        0 <= w < collisions.len() ==> collision_sound(
                            self.faces@,
                            patch@,
                            #[trigger] collisions[w],
                        ),
                    forall|kk: int, ll: int|
                        0 <= kk < ll < patch.len() && kk < k && collide_spec(
                            self.faces[patch[kk] as int],
                            self.faces[patch[ll] as int],
                        ) ==> collisions@.contains((#[trigger] patch[kk], #[trigger] patch[ll])),
                    forall|ll: int|
                        (k as int) < ll < l && collide_spec(
                            self.faces[patch[k as int] as int],
                            self.faces[(#[trigger] patch[ll]) as int],
                        ) ==> collisions@.contains((patch[k as int], patch[ll])),
                decreases patch.len() - l,
            {
                let fa = patch[k];
                let fb = patch[l];
                let hit = {
                    let fr = &self.faces[fa];
                    let gr = &self.faces[fb];
                    fr.collide(gr)
                };
                if hit {
                    let ghost before = collisions@;
                    collisions.push((fa, fb));
                    proof {
                        let last = collisions@.len() - 1;
                        assert(collisions@[last] == (fa, fb));
                        assert(0 <= k < l < patch.len() && collisions@[last] == (
                            patch[k as int],
                            patch[l as int],
                        ) && collide_spec(
                            self.faces[patch[k as int] as int],
                            self.faces[patch[l as int] as int],
                        ));
                        assert(collision_sound(self.faces@, patch@, collisions@[last]));
                        assert(collisions@.contains((patch[k as int], patch[l as int])));
                        assert forall|p: (usize, usize)| before.contains(p)
                            implies collisions@.contains(p) by {
                            let w = choose|w: int| 0 <= w < before.len() && before[w] == p;
                            assert(collisions@[w] == p);
                        }
                    }
                }
                l = l + 1;
            }
            k = k + 1;
        }
        UnfoldReport { patch, collisions }
    }

    /// Appends face `i` to the record of edge `(a, b)`, creating the
    /// record if needed and reporting the edge when a third incident face
    /// shows up.
    fn record_edge(
        recs: &mut Vec<EdgeRec>,
        warnings: &mut Vec<(usize, usize)>,
        triangles: &Vec<Triangle>,
        i: usize,
        a: usize,
        b: usize,
    )
        requires
            i < triangles.len(),
            a < b,
            tri_has_edge(triangles[i as int], a as int, b as int),
            forall|k: int|
                0 <= k < old(recs).len() ==> {
                    &&& (#[trigger] old(recs)[k]).a < old(recs)[k].b
                    &&& old(recs)[k].tris.len() >= 1
                    &&& forall|l: int|
                        0 <= l < old(recs)[k].tris.len() ==> (#[trigger] old(recs)[k].tris[l])
                            <= i && tri_has_edge(
                            triangles[old(recs)[k].tris[l] as int],
                            old(recs)[k].a as int,
                            old(recs)[k].b as int,
                        )
                    &&& forall|l1: int, l2: int|
                        0 <= l1 < l2 < old(recs)[k].tris.len()
                            ==> (#[trigger] old(recs)[k].tris[l1])
                            < (#[trigger] old(recs)[k].tris[l2])
                },
            forall|k: int|
                0 <= k < old(recs).len() && (#[trigger] old(recs)[k]).a == a && old(recs)[k].b
                    == b ==> forall|l: int|
                    0 <= l < old(recs)[k].tris.len() ==> (#[trigger] old(recs)[k].tris[l]) < i,
            rec_keys_unique(old(recs)@),
            forall|k: int|
                0 <= k < old(recs).len() && (#[trigger] old(recs)[k]).tris.len() >= 3 ==> old(
                    warnings,
                )@.contains((old(recs)[k].a, old(recs)[k].b)),
            forall|w: int|
                0 <= w < old(warnings).len() ==> edge_non_manifold(
                    triangles@,
                    (#[trigger] old(warnings)[w]).0 as int,
                    old(warnings)[w].1 as int,
                    ),
        ensures
            forall|k: int|
                0 <= k < final(recs).len() ==> {
                    &&& (#[trigger] final(recs)[k]).a < final(recs)[k].b
                    &&& final(recs)[k].tris.len() >= 1
                    &&& forall|l: int|
                        0 <= l < final(recs)[k].tris.len() ==> (#[trigger] final(recs)[k].tris[l])
                            <= i && tri_has_edge(
                            triangles[final(recs)[k].tris[l] as int],
                            final(recs)[k].a as int,
                            final(recs)[k].b as int,
                        )
                    &&& forall|l1: int, l2: int|
                        0 <= l1 < l2 < final(recs)[k].tris.len()
                            ==> (#[trigger] final(recs)[k].tris[l1])
                            < (#[trigger] final(recs)[k].tris[l2])
                },
            forall|k: int|
                0 <= k < old(recs).len() && !((#[trigger] old(recs)[k]).a == a && old(recs)[k].b
                    == b) ==> final(recs)[k] == old(recs)[k],
            forall|k: int|
                0 <= k < old(recs).len() ==> (#[trigger] final(recs)[k]).a == old(recs)[k].a
                    && final(recs)[k].b == old(recs)[k].b,
            final(recs).len() >= old(recs).len(),
            forall|k: int|
                old(recs).len() <= k < final(recs).len() ==> (#[trigger] final(recs)[k]).a == a
                    && final(recs)[k].b == b,
            rec_keys_unique(final(recs)@),
            rec_lists(final(recs)@, a, b, i),
            forall|p: (usize, usize)|
                old(warnings)@.contains(p) ==> final(warnings)@.contains(p),
            forall|k: int|
                0 <= k < final(recs).len() && (#[trigger] final(recs)[k]).tris.len() >= 3
                    ==> final(warnings)@.contains((final(recs)[k].a, final(recs)[k].b)),
            forall|aa: usize, bb: usize, tt: usize|
                #[trigger] rec_lists(old(recs)@, aa, bb, tt) ==> rec_lists(
                    final(recs)@,
                    aa,
                    bb,
                    tt,
                ),
            forall|w: int|
                0 <= w < final(warnings).len() ==> edge_non_manifold(
                    triangles@,
                    (#[trigger] final(warnings)[w]).0 as int,
                    final(warnings)[w].1 as int,
                    ),
    {
        let mut k: usize = 0;
        let mut found = false;
        while k < recs.len() && !found
            invariant
                0 <= k <= recs.len(),
                recs == old(recs),
                !found ==> forall|j: int|
                    0 <= j < k ==> !((#[trigger] recs[j]).a == a && recs[j].b == b),
                found ==> k > 0 && recs[k - 1].a == a && recs[k - 1].b == b,
            decreases recs.len() - k + (if found {
                0int
            } else {
                1int
            }),
        {
            if recs[k].a == a && recs[k].b == b {
                found = true;
            }
            k = k + 1;
        }
        if found {
            let kk = k - 1;
            let prev_len = recs[kk].tris.len();
            recs[kk].tris.push(i);
            proof {
                assert(recs@[kk as int].tris@[recs@[kk as int].tris@.len() - 1] == i);
                assert(rec_lists(recs@, a, b, i));
                assert forall|aa: usize, bb: usize, tt: usize| #[trigger] rec_lists(
                    old(recs)@,
                    aa,
                    bb,
                    tt,
                ) implies rec_lists(recs@, aa, bb, tt) by {
                    let k0 = choose|k0: int|
                        0 <= k0 < old(recs)@.len() && (#[trigger] old(recs)@[k0]).a == aa && old(
                            recs,
                        )@[k0].b == bb && exists|l: int|
                            0 <= l < old(recs)@[k0].tris.len() && old(recs)@[k0].tris[l] == tt;
                    let l0 = choose|l0: int|
                        0 <= l0 < old(recs)@[k0].tris.len() && old(recs)@[k0].tris[l0] == tt;
                    assert(recs@[k0].tris@[l0] == tt);
                    assert(recs@[k0].a == aa && recs@[k0].b == bb);
                }
            }
            if prev_len == 2 {
                proof {
                    let r = recs[kk as int];
                    assert(r.tris[0] < r.tris[1] < r.tris[2]);
                    assert(tri_has_edge(triangles[r.tris[0] as int], a as int, b as int));
                }
                warnings.push((a, b));
                proof {
                    assert(warnings@[warnings@.len() - 1] == (a, b));
                    assert(warnings@.contains((a, b)));
                    assert forall|p: (usize, usize)| old(warnings)@.contains(p)
                        implies warnings@.contains(p) by {
                        let w = choose|w: int|
                            0 <= w < old(warnings)@.len() && old(warnings)@[w] == p;
                        assert(warnings@[w] == p);
                    }
                }
            }
            proof {
                assert forall|k2: int|
                    0 <= k2 < recs.len() && (#[trigger] recs[k2]).tris.len() >= 3
                    implies warnings@.contains((recs[k2].a, recs[k2].b)) by {
                    if k2 != kk as int {
                        assert(recs@[k2] == old(recs)@[k2]);
                        assert(old(warnings)@.contains((recs[k2].a, recs[k2].b)));
                        let w = choose|w: int|
                            0 <= w < old(warnings)@.len() && old(warnings)@[w] == (
                                recs[k2].a,
                                recs[k2].b,
                            );
                        assert(warnings@[w] == (recs[k2].a, recs[k2].b));
                    } else {
                        if prev_len != 2 {
                            assert(old(recs)@[kk as int].tris.len() >= 3);
                            assert(old(warnings)@.contains((recs[k2].a, recs[k2].b)));
                            let w = choose|w: int|
                                0 <= w < old(warnings)@.len() && old(warnings)@[w] == (
                                    recs[k2].a,
                                    recs[k2].b,
                                );
                            assert(warnings@[w] == (recs[k2].a, recs[k2].b));
                        }
                    }
                }
            }
        } else {
            let mut tris: Vec<usize> = Vec::new();
            tris.push(i);
            recs.push(EdgeRec { a, b, tris });
            proof {
                let last = recs@.len() - 1;
                assert(recs@[last].a == a && recs@[last].b == b && recs@[last].tris@[0] == i);
                assert(rec_lists(recs@, a, b, i));
                assert forall|aa: usize, bb: usize, tt: usize| #[trigger] rec_lists(
                    old(recs)@,
                    aa,
                    bb,
                    tt,
                ) implies rec_lists(recs@, aa, bb, tt) by {
                    let k0 = choose|k0: int|
                        0 <= k0 < old(recs)@.len() && (#[trigger] old(recs)@[k0]).a == aa && old(
                            recs,
                        )@[k0].b == bb && exists|l: int|
                            0 <= l < old(recs)@[k0].tris.len() && old(recs)@[k0].tris[l] == tt;
                    assert(recs@[k0] == old(recs)@[k0]);
                }
            }
        }
    }

    /// The local index (0, 1 or 2) of the vertex of `t` that is not on the
    /// edge `(a, b)`.
    fn furthest_local(t: &Triangle, a: usize, b: usize) -> (r: usize)
        requires
            tri_has_edge(*t, a as int, b as int),
            t.v1 != t.v2 && t.v1 != t.v3 && t.v2 != t.v3,
        ensures
            r < 3,
            tri_vert(*t, r as int) != a,
            tri_vert(*t, r as int) != b,
    {
        if t.v1 != a && t.v1 != b {
            0
        } else if t.v2 != a && t.v2 != b {
            1
        } else {
            2
        }
    }
}

} // verus!

