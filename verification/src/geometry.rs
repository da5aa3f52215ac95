//! Quadric-error-metric mesh simplification.
//!
//! A `SurfaceSimplifier` owns a dense vertex array, a dense triangle array
//! and a queue of candidate contractions ordered by cost. Collapsing the
//! cheapest candidate merges two vertices, deletes the triangles that become
//! degenerate and renumbers the remaining indices so the arrays stay dense.

use vstd::prelude::*;

use crate::math::Vec3;
use crate::math::div_tz;
use crate::math::sqrt_floor;
use crate::math::lemma_mul_bound;
use crate::math::lemma_square_nonneg;
use crate::math::lemma_component_le_root;
use crate::math::lemma_div_tz_scale;
use crate::math::MAX_COORD;
use crate::math::NORMAL_SCALE;
use crate::quadric::SymetricMatrix;
use crate::quadric::FACE_QUADRIC_MAX;
use crate::quadric::QUADRIC_LIMIT;

verus! {

/// Caps keeping every quadric accumulation and cost evaluation exact.
pub const MAX_VERTICES: usize = 1048576;

pub const MAX_FACES: usize = 1048576;

/// Largest accepted pair-selection distance threshold.
pub const MAX_THRESHOLD: i128 = 262144;

/// Why a mesh or a simplification request was rejected.
#[derive(Clone, Copy, Debug, PartialEq, Eq, Structural)]
pub enum MeshError {
    /// Fewer than 3 vertices or no triangles.
    DegenerateInput,
    /// More vertices or triangles than the fixed caps.
    TooLarge,
    /// A pair-selection threshold outside `[0, MAX_THRESHOLD]`.
    InvalidThreshold,
    /// A triangle with an out-of-range or repeated vertex index.
    InvalidTriangle,
    /// A vertex coordinate outside `[-MAX_COORD, MAX_COORD]`.
    CoordinateOutOfRange,
    /// A target face count below the minimum of 4.
    InvalidTargetCount,
    /// A target face count above the current face count.
    TargetExceedsFaceCount,
    /// A reduction ratio outside `(0, 1]`.
    InvalidRatio,
    /// A page dimension of zero.
    InvalidPageSize,
}

/// Converts a reduction ratio `ratio_num / ratio_den` in `(0, 1]` to a
/// target count by rounding `count * ratio` half up.
pub fn target_from_ratio(count: usize, ratio_num: u64, ratio_den: u64) -> (r: Result<
    usize,
    MeshError,
>)
    requires
        count <= MAX_FACES,
    ensures
        r is Ok <==> (0 < ratio_num <= ratio_den),
        match r {
            Result::Ok(t) => t == (2 * count * ratio_num + ratio_den) / (2 * ratio_den)
                && t <= count,
            Result::Err(e) => e == MeshError::InvalidRatio,
        },
{
    if ratio_num == 0 || ratio_den == 0 || ratio_num > ratio_den {
        return Result::Err(MeshError::InvalidRatio);
    }
    proof {
        lemma_mul_bound(2 * count as int, 0x20_0000, ratio_num as int,
            0xffff_ffff_ffff_ffff);
    }
    let num: u128 = 2 * (count as u128) * (ratio_num as u128) + (ratio_den as u128);
    let den: u128 = 2 * (ratio_den as u128);
    let t = num / den;
    proof {
        assert(t <= count) by (nonlinear_arith)
            requires
                t == (2 * count * ratio_num + ratio_den) / (2 * ratio_den),
                0 < ratio_num <= ratio_den,
                0 <= count,
        {
        }
    }
    Result::Ok(t as usize)
}

/// A triangle: three distinct indices into the vertex array, plus the
/// per-corner attributes that simplification carries through unchanged --
/// a material tag and one fixed-point texture coordinate per corner.
#[derive(Clone, Copy, Debug, PartialEq, Eq, Structural)]
pub struct Triangle {
    pub v1: usize,
    pub v2: usize,
    pub v3: usize,
    pub material: i32,
    pub uv1: crate::math::Vec2,
    pub uv2: crate::math::Vec2,
    pub uv3: crate::math::Vec2,
}

/// A vertex: a position and its accumulated error quadric.
#[derive(Clone, Copy, Debug)]
pub struct Vertex {
    pub position: Vec3,
    pub quadric: SymetricMatrix,
}

/// What a simplification run did: the face counts before and after, how
/// many contractions were applied, and whether the target was reached
/// (when it was not, the candidate queue ran out first).
#[derive(Clone, Copy, Debug, PartialEq, Eq, Structural)]
pub struct SimplifyReport {
    pub initial_faces: usize,
    pub final_faces: usize,
    pub collapses: usize,
    pub reached: bool,
}

/// A candidate contraction: an unordered vertex pair, its cost, and the
/// position the merged vertex would take.
#[derive(Clone, Copy, Debug, PartialEq, Eq, Structural)]
pub struct Pair {
    pub v1: usize,
    pub v2: usize,
    pub error: i128,
    pub optimal_position: Vec3,
}

pub open spec fn tri_contains(t: Triangle, v: int) -> bool {
    t.v1 == v || t.v2 == v || t.v3 == v
}

/// Indices in range and pairwise distinct.
pub open spec fn tri_valid(t: Triangle, n: int) -> bool {
    &&& t.v1 < n
    &&& t.v2 < n
    &&& t.v3 < n
    &&& t.v1 != t.v2
    &&& t.v1 != t.v3
    &&& t.v2 != t.v3
}

/// Two distinct vertex indices co-occur in one of the first `k` triangles.
pub open spec fn is_edge_upto(faces: Seq<Triangle>, k: int, a: int, b: int) -> bool {
    a != b && exists|i: int|
        0 <= i < k && tri_contains(#[trigger] faces[i], a) && tri_contains(faces[i], b)
}

/// Two distinct vertex indices co-occur in some triangle.
pub open spec fn is_mesh_edge(faces: Seq<Triangle>, a: int, b: int) -> bool {
    is_edge_upto(faces, faces.len() as int, a, b)
}

/// The squared Euclidean distance between two points.
pub open spec fn dist_sq_spec(p: Vec3, q: Vec3) -> int {
    (p.x - q.x) * (p.x - q.x) + (p.y - q.y) * (p.y - q.y) + (p.z - q.z) * (p.z - q.z)
}

impl Vertex {
    /// A fresh vertex with the zero quadric.
    pub fn new(position: Vec3) -> (r: Vertex)
        ensures
            r.position == position,
            r.quadric.bounded(0),
            crate::quadric::is_psd(r.quadric),
    {
        Vertex { position, quadric: SymetricMatrix::zeros() }
    }
}

/// Membership of an unordered index pair in the candidate set: every mesh
/// edge, plus, when a positive threshold is configured, every pair of
/// distinct vertices closer than the threshold.
pub open spec fn candidate_spec(s: SurfaceSimplifier, a: int, b: int) -> bool {
    &&& a != b
    &&& 0 <= a < s.vertices.len()
    &&& 0 <= b < s.vertices.len()
    &&& (is_mesh_edge(s.faces@, a, b) || (s.pair_length_threshold > 0 && dist_sq_spec(
        s.vertices[a].position,
        s.vertices[b].position,
    ) < s.pair_length_threshold * s.pair_length_threshold))
}

/// What a queued candidate must hold for the simplifier `s`: the summed
/// quadric of its endpoints determines both the optimal position and the
/// cost, exactly as `optimal_position_spec` and `eval_spec` describe them.
pub open spec fn is_contraction_pair(s: SurfaceSimplifier, p: Pair) -> bool {
    &&& p.v1 < s.vertices.len()
    &&& p.v2 < s.vertices.len()
    &&& p.v1 != p.v2
    &&& {
        let q = crate::quadric::mat_sum_spec(
            s.vertices[p.v1 as int].quadric,
            s.vertices[p.v2 as int].quadric,
        );
        let pos = crate::quadric::optimal_position_spec(
            q,
            s.vertices[p.v1 as int].position,
            s.vertices[p.v2 as int].position,
        );
        &&& (
            p.optimal_position.x as int,
            p.optimal_position.y as int,
            p.optimal_position.z as int,
        ) == pos
        &&& p.error == crate::quadric::eval_spec(q, pos.0, pos.1, pos.2)
    }
}

/// The dense-index invariant: after any sequence of collapses, every
/// triangle of a well-formed simplifier indexes the current (shrunk)
/// vertex array, with three pairwise distinct corners.
pub proof fn lemma_index_density(s: SurfaceSimplifier, k: int)
    requires
        s.wf(),
        0 <= k < s.faces.len(),
    ensures
        tri_valid(s.faces[k], s.vertices.len() as int),
{
}

/// Every queued candidate of a well-formed simplifier carries a
/// nonnegative cost: quadric error is a positive semi-definite form, so
/// the minimum cost popped after any rebuild of the queue is at least 0.
pub proof fn lemma_queue_costs_nonnegative(s: SurfaceSimplifier, k: int)
    requires
        s.wf(),
        0 <= k < s.heap.len(),
    ensures
        s.heap[k].error >= 0,
{
}

/// One simplification step from state `s` to state `t`: the pair `p` is a
/// queued candidate of minimum cost, correct for `s`; the merged vertex
/// replaces slot `p.v1` at the pair's optimal position with the exact
/// summed quadric; triangles on the contracted edge are deleted and the
/// rest renumbered; and `t`'s quadrics and candidate queue are rebuilt
/// for the new geometry.
pub open spec fn collapse_step_spec(s: SurfaceSimplifier, p: Pair, t: SurfaceSimplifier) -> bool {
    &&& s.heap@.contains(p)
    &&& forall|j: int| 0 <= j < s.heap.len() ==> p.error <= (#[trigger] s.heap[j]).error
    &&& is_contraction_pair(s, p)
    &&& t.faces@ == collapse_faces_spec(s.faces@, p.v1 as int, p.v2 as int)
    &&& positions_of(t.vertices@) == positions_of(
        s.vertices@.update(
            p.v1 as int,
            Vertex {
                position: p.optimal_position,
                quadric: crate::quadric::mat_sum_spec(
                    s.vertices[p.v1 as int].quadric,
                    s.vertices[p.v2 as int].quadric,
                ),
            },
        ).remove(p.v2 as int),
    )
    &&& forall|v: int|
        0 <= v < t.vertices.len() ==> qmat_of((#[trigger] t.vertices[v]).quadric)
            == accum_quadric_spec(
            t.faces@,
            positions_of(t.vertices@),
            v,
            t.faces@.len() as int,
        )
    &&& t.pair_length_threshold == s.pair_length_threshold
    &&& forall|k: int|
        0 <= k < t.heap.len() ==> is_contraction_pair(t, #[trigger] t.heap[k])
    &&& forall|k: int|
        0 <= k < t.heap.len() ==> candidate_spec(
            t,
            (#[trigger] t.heap[k]).v1 as int,
            t.heap[k].v2 as int,
        )
    &&& forall|a: int, b: int|
        0 <= a < b < t.vertices.len() && candidate_spec(t, a, b) ==> exists|k: int|
            0 <= k < t.heap.len() && (#[trigger] t.heap[k]).v1 == a && t.heap[k].v2 == b
}

/// With a zero pair-selection threshold the candidate set is exactly the
/// set of mesh edges: no virtual pairs appear.
pub proof fn lemma_zero_threshold_candidates(s: SurfaceSimplifier, a: int, b: int)
    requires
        s.pair_length_threshold == 0,
    ensures
        candidate_spec(s, a, b) <==> (0 <= a < s.vertices.len() && 0 <= b < s.vertices.len()
            && is_mesh_edge(s.faces@, a, b)),
{
}

/// Whether `r` holds the pair `(a, b)`.
fn contains_pair(r: &Vec<(usize, usize)>, a: usize, b: usize) -> (res: bool)
    ensures
        res == r@.contains((a, b)),
{
    let mut i: usize = 0;
    while i < r.len()
        invariant
            0 <= i <= r.len(),
            forall|j: int| 0 <= j < i ==> r[j] != (a, b),
        decreases r.len() - i,
    {
        let p = r[i];
        if p.0 == a && p.1 == b {
            assert(r[i as int] == (a, b));
            return true;
        }
        i = i + 1;
    }
    assert(forall|j: int| 0 <= j < r.len() ==> r[j] != (a, b));
    false
}

/// Where index `i` ends up after the pair `(v1, v2)` is contracted: `v2`
/// is redirected to the surviving slot `v1`, and every index above the
/// removed slot `v2` moves down by one.
pub open spec fn remap_index(i: int, v1: int, v2: int) -> int {
    let j = if i == v2 {
        v1
    } else {
        i
    };
    if j > v2 {
        j - 1
    } else {
        j
    }
}

/// Renumbers a surviving triangle's indices; its material and texture
/// coordinates pass through unchanged.
pub open spec fn remap_tri(t: Triangle, v1: int, v2: int) -> Triangle {
    Triangle {
        v1: remap_index(t.v1 as int, v1, v2) as usize,
        v2: remap_index(t.v2 as int, v1, v2) as usize,
        v3: remap_index(t.v3 as int, v1, v2) as usize,
        material: t.material,
        uv1: t.uv1,
        uv2: t.uv2,
        uv3: t.uv3,
    }
}

/// A triangle referencing both endpoints of the contracted pair collapses
/// to fewer than three distinct vertices and must be deleted.
pub open spec fn tri_degenerate_after(t: Triangle, v1: int, v2: int) -> bool {
    tri_contains(t, v1) && tri_contains(t, v2)
}

/// The triangle list after contracting `(v1, v2)`: degenerate triangles
/// deleted, all other triangles remapped, order preserved.
pub open spec fn collapse_faces_spec(s: Seq<Triangle>, v1: int, v2: int) -> Seq<Triangle>
    decreases s.len(),
{
    if s.len() == 0 {
        Seq::empty()
    } else {
        let rest = collapse_faces_spec(s.drop_last(), v1, v2);
        if tri_degenerate_after(s.last(), v1, v2) {
            rest
        } else {
            rest.push(remap_tri(s.last(), v1, v2))
        }
    }
}

/// Remapping a surviving triangle keeps its indices in range and distinct.
proof fn lemma_remap_valid(t: Triangle, v1: int, v2: int, n: int)
    requires
        tri_valid(t, n),
        !tri_degenerate_after(t, v1, v2),
        0 <= v1 < n,
        0 <= v2 < n,
        v1 != v2,
        n <= MAX_VERTICES,
    ensures
        tri_valid(remap_tri(t, v1, v2), n - 1),
{
}

/// A quadric with unbounded integer entries; the mathematical value of a
/// `SymetricMatrix`, used only in specifications.
pub struct QMat {
    pub m00: int,
    pub m01: int,
    pub m02: int,
    pub m03: int,
    pub m11: int,
    pub m12: int,
    pub m13: int,
    pub m22: int,
    pub m23: int,
    pub m33: int,
}

pub open spec fn qmat_of(q: SymetricMatrix) -> QMat {
    QMat {
        m00: q.m00 as int,
        m01: q.m01 as int,
        m02: q.m02 as int,
        m03: q.m03 as int,
        m11: q.m11 as int,
        m12: q.m12 as int,
        m13: q.m13 as int,
        m22: q.m22 as int,
        m23: q.m23 as int,
        m33: q.m33 as int,
    }
}

pub open spec fn qmat_add(a: QMat, b: QMat) -> QMat {
    QMat {
        m00: a.m00 + b.m00,
        m01: a.m01 + b.m01,
        m02: a.m02 + b.m02,
        m03: a.m03 + b.m03,
        m11: a.m11 + b.m11,
        m12: a.m12 + b.m12,
        m13: a.m13 + b.m13,
        m22: a.m22 + b.m22,
        m23: a.m23 + b.m23,
        m33: a.m33 + b.m33,
    }
}

/// The outer product of the plane row `(a, b, c, d)` with itself.
pub open spec fn qmat_outer(a: int, b: int, c: int, d: int) -> QMat {
    QMat {
        m00: a * a,
        m01: a * b,
        m02: a * c,
        m03: a * d,
        m11: b * b,
        m12: b * c,
        m13: b * d,
        m22: c * c,
        m23: c * d,
        m33: d * d,
    }
}

/// The positions of a vertex sequence.
pub open spec fn positions_of(vertices: Seq<Vertex>) -> Seq<Vec3> {
    vertices.map(|i: int, v: Vertex| v.position)
}

/// The (unnormalized) normal of a triangle: the cross product of two of its
/// edge vectors.
pub open spec fn tri_normal_spec(t: Triangle, poss: Seq<Vec3>) -> (int, int, int) {
    let p1 = poss[t.v1 as int];
    let p2 = poss[t.v2 as int];
    let p3 = poss[t.v3 as int];
    let e1x = p2.x - p1.x;
    let e1y = p2.y - p1.y;
    let e1z = p2.z - p1.z;
    let e2x = p3.x - p1.x;
    let e2y = p3.y - p1.y;
    let e2z = p3.z - p1.z;
    (e1y * e2z - e1z * e2y, e1z * e2x - e1x * e2z, e1x * e2y - e1y * e2x)
}

/// The supporting plane of a triangle as the row `(a, b, c, d)`: the normal
/// scaled to length `NORMAL_SCALE` (each component rounded toward zero) and
/// the offset `d == -(a, b, c) . p1`. A degenerate triangle, whose cross
/// product vanishes, contributes the zero row and therefore the zero quadric.
pub open spec fn tri_plane_spec(t: Triangle, poss: Seq<Vec3>) -> (int, int, int, int) {
    let (nx, ny, nz) = tri_normal_spec(t, poss);
    if nx == 0 && ny == 0 && nz == 0 {
        (0, 0, 0, 0)
    } else {
        let nn = nx * nx + ny * ny + nz * nz;
        let len = sqrt_floor(nn as nat) as int;
        let a = div_tz(nx * NORMAL_SCALE, len);
        let b = div_tz(ny * NORMAL_SCALE, len);
        let c = div_tz(nz * NORMAL_SCALE, len);
        let p1 = poss[t.v1 as int];
        (a, b, c, -(a * p1.x + b * p1.y + c * p1.z))
    }
}

/// The quadric a single triangle contributes to each of its vertices.
pub open spec fn tri_quadric_spec(t: Triangle, poss: Seq<Vec3>) -> QMat {
    let (a, b, c, d) = tri_plane_spec(t, poss);
    qmat_outer(a, b, c, d)
}

/// The quadric accumulated at vertex `v` from the first `k` triangles.
pub open spec fn accum_quadric_spec(faces: Seq<Triangle>, poss: Seq<Vec3>, v: int, k: int) -> QMat
    decreases k,
{
    if k <= 0 {
        qmat_outer(0, 0, 0, 0)
    } else {
        let prev = accum_quadric_spec(faces, poss, v, k - 1);
        if tri_contains(faces[k - 1], v) {
            qmat_add(prev, tri_quadric_spec(faces[k - 1], poss))
        } else {
            prev
        }
    }
}

/// Computes one triangle's plane quadric, exactly as `tri_quadric_spec`
/// describes it.
fn face_quadric(t: &Triangle, vertices: &Vec<Vertex>) -> (r: SymetricMatrix)
    requires
        tri_valid(*t, vertices@.len() as int),
        forall|i: int|
            0 <= i < vertices@.len() ==> (#[trigger] vertices@[i]).position.bounded(
                MAX_COORD as int,
            ),
    ensures
        qmat_of(r) == tri_quadric_spec(*t, positions_of(vertices@)),
        r.bounded(FACE_QUADRIC_MAX as int),
        crate::quadric::is_psd(r),
{
    let ghost poss = positions_of(vertices@);
    let p1 = vertices[t.v1].position;
    let p2 = vertices[t.v2].position;
    let p3 = vertices[t.v3].position;
    assert(poss[t.v1 as int] == p1 && poss[t.v2 as int] == p2 && poss[t.v3 as int] == p3);
    let e1 = p2.minus(&p1);
    let e2 = p3.minus(&p1);
    let n = e1.cross(&e2);
    proof {
        lemma_mul_bound(e1.y as int, 2 * MAX_COORD as int, e2.z as int, 2 * MAX_COORD as int);
        lemma_mul_bound(e1.z as int, 2 * MAX_COORD as int, e2.y as int, 2 * MAX_COORD as int);
        lemma_mul_bound(e1.z as int, 2 * MAX_COORD as int, e2.x as int, 2 * MAX_COORD as int);
        lemma_mul_bound(e1.x as int, 2 * MAX_COORD as int, e2.z as int, 2 * MAX_COORD as int);
        lemma_mul_bound(e1.x as int, 2 * MAX_COORD as int, e2.y as int, 2 * MAX_COORD as int);
        lemma_mul_bound(e1.y as int, 2 * MAX_COORD as int, e2.x as int, 2 * MAX_COORD as int);
    }
    proof {
        assert(tri_normal_spec(*t, poss) == (n.x as int, n.y as int, n.z as int));
    }
    if n.x == 0 && n.y == 0 && n.z == 0 {
        let r = SymetricMatrix::zeros();
        proof {
            assert(tri_quadric_spec(*t, poss) == qmat_outer(0, 0, 0, 0));
            assert(qmat_of(r) == qmat_outer(0, 0, 0, 0));
        }
        r
    } else {
        let nn = n.norm_squared();
        proof {
            lemma_mul_bound(n.x as int, 0x8_0000_0000, n.x as int, 0x8_0000_0000);
            lemma_mul_bound(n.y as int, 0x8_0000_0000, n.y as int, 0x8_0000_0000);
            lemma_mul_bound(n.z as int, 0x8_0000_0000, n.z as int, 0x8_0000_0000);
            lemma_square_nonneg(n.x as int);
            lemma_square_nonneg(n.y as int);
            lemma_square_nonneg(n.z as int);
            if n.x != 0 {
                assert(n.x * n.x >= 1) by (nonlinear_arith)
                    requires
                        n.x != 0,
                {
                }
            } else if n.y != 0 {
                assert(n.y * n.y >= 1) by (nonlinear_arith)
                    requires
                        n.y != 0,
                {
                }
            } else {
                assert(n.z * n.z >= 1) by (nonlinear_arith)
                    requires
                        n.z != 0,
                {
                }
            }
        }
        let len = crate::math::isqrt(nn);
        proof {
            assert(len >= 1) by (nonlinear_arith)
                requires
                    nn >= 1,
                    len * len <= nn < (len + 1) * (len + 1),
                    len >= 0,
            {
            }
            lemma_component_le_root(n.x as int, nn as int, len as int);
            lemma_component_le_root(n.y as int, nn as int, len as int);
            lemma_component_le_root(n.z as int, nn as int, len as int);
            lemma_mul_bound(n.x as int, 0x8_0000_0000, NORMAL_SCALE as int, NORMAL_SCALE as int);
            lemma_mul_bound(n.y as int, 0x8_0000_0000, NORMAL_SCALE as int, NORMAL_SCALE as int);
            lemma_mul_bound(n.z as int, 0x8_0000_0000, NORMAL_SCALE as int, NORMAL_SCALE as int);
            lemma_div_tz_scale(n.x as int, len as int, NORMAL_SCALE as int);
            lemma_div_tz_scale(n.y as int, len as int, NORMAL_SCALE as int);
            lemma_div_tz_scale(n.z as int, len as int, NORMAL_SCALE as int);
        }
        let a = crate::math::div_i(n.x * NORMAL_SCALE, len);
        let b = crate::math::div_i(n.y * NORMAL_SCALE, len);
        let c = crate::math::div_i(n.z * NORMAL_SCALE, len);
        proof {
            lemma_mul_bound(a as int, NORMAL_SCALE as int, p1.x as int, MAX_COORD as int);
            lemma_mul_bound(b as int, NORMAL_SCALE as int, p1.y as int, MAX_COORD as int);
            lemma_mul_bound(c as int, NORMAL_SCALE as int, p1.z as int, MAX_COORD as int);
        }
        let d = -(a * p1.x + b * p1.y + c * p1.z);
        SymetricMatrix::from_plane(a, b, c, d)
    }
}

/// The simplifier state: vertices, triangles and the candidate queue.
pub struct SurfaceSimplifier {
    pub vertices: Vec<Vertex>,
    pub faces: Vec<Triangle>,
    pub heap: Vec<Pair>,
    pub pair_length_threshold: i128,
}

impl SurfaceSimplifier {
    /// Structural well-formedness: dense, in-range, distinct indices and
    /// in-range coordinates.
    pub open spec fn geom_wf(self) -> bool {
        &&& 1 <= self.vertices.len() <= MAX_VERTICES
        &&& self.faces.len() <= MAX_FACES
        &&& forall|i: int|
            0 <= i < self.faces.len() ==> tri_valid(
                #[trigger] self.faces[i],
                self.vertices.len() as int,
            )
        &&& forall|i: int|
            0 <= i < self.vertices.len() ==> (#[trigger] self.vertices[i]).position.bounded(
                MAX_COORD as int,
            )
        &&& 0 <= self.pair_length_threshold <= MAX_THRESHOLD
    }

    /// Every vertex quadric is positive semi-definite and bounded by `qb`.
    pub open spec fn quad_wf(self, qb: int) -> bool {
        forall|i: int|
            0 <= i < self.vertices.len() ==> {
                &&& (#[trigger] self.vertices[i]).quadric.bounded(qb)
                &&& crate::quadric::is_psd(self.vertices[i].quadric)
            }
    }

    /// Every queued pair refers to current, distinct vertices, proposes an
    /// in-range position, and carries a nonnegative cost.
    pub open spec fn heap_wf(self) -> bool {
        forall|k: int|
            0 <= k < self.heap.len() ==> {
                &&& (#[trigger] self.heap[k]).v1 < self.vertices.len()
                &&& self.heap[k].v2 < self.vertices.len()
                &&& self.heap[k].v1 != self.heap[k].v2
                &&& self.heap[k].optimal_position.bounded(MAX_COORD as int)
                &&& self.heap[k].error >= 0
            }
    }

    pub open spec fn wf(self) -> bool {
        &&& self.geom_wf()
        &&& self.quad_wf(QUADRIC_LIMIT as int)
        &&& self.heap_wf()
    }

    /// The validation applied to a new mesh, in order.
    pub open spec fn validate_spec(
        positions: Seq<Vec3>,
        faces: Seq<Triangle>,
        threshold: int,
    ) -> Option<MeshError> {
        if positions.len() < 3 || faces.len() < 1 {
            Some(MeshError::DegenerateInput)
        } else if positions.len() > MAX_VERTICES || faces.len() > MAX_FACES {
            Some(MeshError::TooLarge)
        } else if !(0 <= threshold <= MAX_THRESHOLD) {
            Some(MeshError::InvalidThreshold)
        } else if exists|i: int|
            0 <= i < faces.len() && !tri_valid(#[trigger] faces[i], positions.len() as int) {
            Some(MeshError::InvalidTriangle)
        } else if exists|i: int|
            0 <= i < positions.len() && !(#[trigger] positions[i]).bounded(MAX_COORD as int) {
            Some(MeshError::CoordinateOutOfRange)
        } else {
            None
        }
    }

    /// Builds a simplifier after validating the mesh; every vertex starts
    /// with the zero quadric and the candidate queue starts empty.
    pub fn new(positions: Vec<Vec3>, faces: Vec<Triangle>, pair_length_threshold: i128) -> (r:
        Result<SurfaceSimplifier, MeshError>)
        ensures
            match r {
                Result::Ok(s) => {
                    &&& Self::validate_spec(positions@, faces@, pair_length_threshold as int)
                        is None
                    &&& s.wf()
                    &&& s.vertices.len() == positions.len()
                    &&& forall|i: int|
                        0 <= i < positions.len() ==> (#[trigger] s.vertices[i]).position
                            == positions[i]
                    &&& forall|i: int|
                        0 <= i < positions.len() ==> (#[trigger] s.vertices[i]).quadric.bounded(0)
                    &&& s.faces == faces
                    &&& s.heap.len() == 0
                    &&& s.pair_length_threshold == pair_length_threshold
                },
                Result::Err(e) => Self::validate_spec(
                    positions@,
                    faces@,
                    pair_length_threshold as int,
                ) == Some(e),
            },
    {
        if positions.len() < 3 || faces.len() < 1 {
            return Result::Err(MeshError::DegenerateInput);
        }
        if positions.len() > MAX_VERTICES || faces.len() > MAX_FACES {
            return Result::Err(MeshError::TooLarge);
        }
        if !(0 <= pair_length_threshold && pair_length_threshold <= MAX_THRESHOLD) {
            return Result::Err(MeshError::InvalidThreshold);
        }
        let n = positions.len();
        let mut i: usize = 0;
        while i < faces.len()
            invariant
                0 <= i <= faces.len(),
                n == positions.len(),
                3 <= positions.len() <= MAX_VERTICES,
                1 <= faces.len() <= MAX_FACES,
                0 <= pair_length_threshold <= MAX_THRESHOLD,
                forall|j: int| 0 <= j < i ==> tri_valid(#[trigger] faces[j], n as int),
            decreases faces.len() - i,
        {
            let t = faces[i];
            if !(t.v1 < n && t.v2 < n && t.v3 < n && t.v1 != t.v2 && t.v1 != t.v3 && t.v2
                != t.v3) {
                proof {
                    assert(!tri_valid(faces[i as int], positions@.len() as int));
                }
                return Result::Err(MeshError::InvalidTriangle);
            }
            i = i + 1;
        }
        let mut i: usize = 0;
        while i < positions.len()
            invariant
                0 <= i <= positions.len(),
                3 <= positions.len() <= MAX_VERTICES,
                1 <= faces.len() <= MAX_FACES,
                0 <= pair_length_threshold <= MAX_THRESHOLD,
                forall|j: int|
                    0 <= j < faces.len() ==> tri_valid(
                        #[trigger] faces[j],
                        positions.len() as int,
                    ),
                forall|j: int|
                    0 <= j < i ==> (#[trigger] positions[j]).bounded(MAX_COORD as int),
            decreases positions.len() - i,
        {
            let p = positions[i];
            if !(-MAX_COORD <= p.x && p.x <= MAX_COORD && -MAX_COORD <= p.y && p.y <= MAX_COORD
                && -MAX_COORD <= p.z && p.z <= MAX_COORD) {
                proof {
                    assert(!positions[i as int].bounded(MAX_COORD as int));
                }
                return Result::Err(MeshError::CoordinateOutOfRange);
            }
            i = i + 1;
        }
        let mut vertices: Vec<Vertex> = Vec::new();
        let mut i: usize = 0;
        while i < positions.len()
            invariant
                0 <= i <= positions.len(),
                vertices.len() == i,
                forall|j: int| 0 <= j < i ==> (#[trigger] vertices[j]).position == positions[j],
                forall|j: int| 0 <= j < i ==> (#[trigger] vertices[j]).quadric.bounded(0),
                forall|j: int|
                    0 <= j < i ==> crate::quadric::is_psd((#[trigger] vertices[j]).quadric),
                forall|j: int|
                    0 <= j < positions.len() ==> (#[trigger] positions[j]).bounded(
                        MAX_COORD as int,
                    ),
            decreases positions.len() - i,
        {
            vertices.push(Vertex::new(positions[i]));
            i = i + 1;
        }
        Result::Ok(
            SurfaceSimplifier { vertices, faces, heap: Vec::new(), pair_length_threshold },
        )
    }

    /// Appends the normalized pair `(low, high)` unless it is already
    /// present, keeping the collection sound, duplicate-free, and at least
    /// as complete as before.
    fn insert_candidate(&self, r: &mut Vec<(usize, usize)>, low: usize, high: usize)
        requires
            low < high,
            candidate_spec(*self, low as int, high as int),
            forall|k: int| 0 <= k < old(r).len() ==> (#[trigger] old(r)[k]).0 < old(r)[k].1,
            forall|k: int|
                0 <= k < old(r).len() ==> candidate_spec(
                    *self,
                    (#[trigger] old(r)[k]).0 as int,
                    old(r)[k].1 as int,
                ),
            forall|k: int, l: int| 0 <= k < l < old(r).len() ==> old(r)[k] != old(r)[l],
        ensures
            forall|k: int| 0 <= k < final(r).len() ==> (#[trigger] final(r)[k]).0 < final(r)[k].1,
            forall|k: int|
                0 <= k < final(r).len() ==> candidate_spec(
                    *self,
                    (#[trigger] final(r)[k]).0 as int,
                    final(r)[k].1 as int,
                ),
            forall|k: int, l: int| 0 <= k < l < final(r).len() ==> final(r)[k] != final(r)[l],
            final(r)@.contains((low, high)),
            forall|p: (usize, usize)| old(r)@.contains(p) ==> final(r)@.contains(p),
    {
        if !contains_pair(r, low, high) {
            r.push((low, high));
            proof {
                assert(r@[r@.len() - 1] == (low, high));
                assert(r@.contains((low, high)));
                assert forall|p: (usize, usize)| old(r)@.contains(p) implies r@.contains(p) by {
                    let j = choose|j: int| 0 <= j < old(r)@.len() && old(r)@[j] == p;
                    assert(r@[j] == p);
                }
            }
        } else {
            proof {
                assert forall|p: (usize, usize)| old(r)@.contains(p) implies r@.contains(p) by {
                }
            }
        }
    }

    /// Builds the candidate set of vertex pairs, each normalized with the
    /// smaller index first and free of duplicates: every pair sharing a
    /// triangle, plus, when a positive threshold is configured, every pair
    /// of distinct vertices strictly closer than the threshold.
    pub fn compute_valid_edges(&self) -> (r: Vec<(usize, usize)>)
        requires
            self.geom_wf(),
        ensures
            forall|k: int| 0 <= k < r.len() ==> (#[trigger] r[k]).0 < r[k].1,
            forall|k: int|
                0 <= k < r.len() ==> candidate_spec(*self, (#[trigger] r[k]).0 as int, r[k].1 as int),
            forall|k: int, l: int| 0 <= k < l < r.len() ==> r[k] != r[l],
            forall|a: int, b: int|
                0 <= a < b < self.vertices.len() && candidate_spec(*self, a, b)
                    ==> r@.contains((a as usize, b as usize)),
    {
        let n = self.vertices.len();
        let m = self.faces.len();
        let mut r: Vec<(usize, usize)> = Vec::new();
        let mut i: usize = 0;
        while i < m
            invariant
                0 <= i <= m,
                m == self.faces.len(),
                n == self.vertices.len(),
                self.geom_wf(),
                forall|k: int| 0 <= k < r.len() ==> (#[trigger] r[k]).0 < r[k].1,
                forall|k: int|
                    0 <= k < r.len() ==> candidate_spec(
                        *self,
                        (#[trigger] r[k]).0 as int,
                        r[k].1 as int,
                    ),
                forall|k: int, l: int| 0 <= k < l < r.len() ==> r[k] != r[l],
                forall|a: int, b: int|
                    a < b && #[trigger] is_edge_upto(self.faces@, i as int, a, b) ==> r@.contains(
                        (a as usize, b as usize),
                    ),
            decreases m - i,
        {
            let t = self.faces[i];
            proof {
                assert(tri_valid(self.faces@[i as int], n as int));
            }
            let e1 = if t.v1 < t.v2 {
                (t.v1, t.v2)
            } else {
                (t.v2, t.v1)
            };
            proof {
                assert(tri_contains(self.faces@[i as int], e1.0 as int));
                assert(tri_contains(self.faces@[i as int], e1.1 as int));
            }
            self.insert_candidate(&mut r, e1.0, e1.1);
            let e2 = if t.v2 < t.v3 {
                (t.v2, t.v3)
            } else {
                (t.v3, t.v2)
            };
            proof {
                assert(tri_contains(self.faces@[i as int], e2.0 as int));
                assert(tri_contains(self.faces@[i as int], e2.1 as int));
            }
            self.insert_candidate(&mut r, e2.0, e2.1);
            let e3 = if t.v1 < t.v3 {
                (t.v1, t.v3)
            } else {
                (t.v3, t.v1)
            };
            proof {
                assert(tri_contains(self.faces@[i as int], e3.0 as int));
                assert(tri_contains(self.faces@[i as int], e3.1 as int));
            }
            self.insert_candidate(&mut r, e3.0, e3.1);
            proof {
                assert forall|a: int, b: int|
                    a < b && #[trigger] is_edge_upto(self.faces@, i as int + 1, a, b) implies r@
                    .contains((a as usize, b as usize)) by {
                    let w = choose|w: int|
                        0 <= w < i as int + 1 && tri_contains(#[trigger] self.faces@[w], a)
                            && tri_contains(self.faces@[w], b);
                    if w < i as int {
                        assert(is_edge_upto(self.faces@, i as int, a, b));
                    } else {
                        let tt = self.faces@[i as int];
                        assert((a as usize, b as usize) == e1 || (a as usize, b as usize) == e2
                            || (a as usize, b as usize) == e3);
                    }
                }
            }
            i = i + 1;
        }
        if self.pair_length_threshold > 0 {
            proof {
                lemma_mul_bound(
                    self.pair_length_threshold as int,
                    MAX_THRESHOLD as int,
                    self.pair_length_threshold as int,
                    MAX_THRESHOLD as int,
                );
            }
            let tsq = self.pair_length_threshold * self.pair_length_threshold;
            let mut a: usize = 0;
            while a < n
                invariant
                    0 <= a <= n,
                    n == self.vertices.len(),
                    self.geom_wf(),
                    self.pair_length_threshold > 0,
                    tsq == self.pair_length_threshold * self.pair_length_threshold,
                    forall|k: int| 0 <= k < r.len() ==> (#[trigger] r[k]).0 < r[k].1,
                    forall|k: int|
                        0 <= k < r.len() ==> candidate_spec(
                            *self,
                            (#[trigger] r[k]).0 as int,
                            r[k].1 as int,
                        ),
                    forall|k: int, l: int| 0 <= k < l < r.len() ==> r[k] != r[l],
                    forall|x: int, y: int|
                        x < y && #[trigger] is_mesh_edge(self.faces@, x, y) ==> r@.contains(
                            (x as usize, y as usize),
                        ),
                    forall|x: int, y: int|
                        0 <= x < y < n && x < a && #[trigger] candidate_spec(*self, x, y)
                            ==> r@.contains((x as usize, y as usize)),
                decreases n - a,
            {
                let mut b: usize = a + 1;
                while b < n
                    invariant
                        0 <= a < b <= n || (b == a + 1 && a < n),
                        a < n,
                        a + 1 <= b <= n,
                        n == self.vertices.len(),
                        self.geom_wf(),
                        self.pair_length_threshold > 0,
                        tsq == self.pair_length_threshold * self.pair_length_threshold,
                        forall|k: int| 0 <= k < r.len() ==> (#[trigger] r[k]).0 < r[k].1,
                        forall|k: int|
                            0 <= k < r.len() ==> candidate_spec(
                                *self,
                                (#[trigger] r[k]).0 as int,
                                r[k].1 as int,
                            ),
                        forall|k: int, l: int| 0 <= k < l < r.len() ==> r[k] != r[l],
                        forall|x: int, y: int|
                            x < y && is_mesh_edge(self.faces@, x, y) ==> r@.contains(
                                (x as usize, y as usize),
                            ),
                        forall|x: int, y: int|
                            0 <= x < y < n && x < a && candidate_spec(*self, x, y) ==> r@.contains(
                                (x as usize, y as usize),
                            ),
                        forall|y: int|
                            a < y < b && #[trigger] candidate_spec(*self, a as int, y)
                                ==> r@.contains((a, y as usize)),
                    decreases n - b,
                {
                    let pa = self.vertices[a].position;
                    let pb = self.vertices[b].position;
                    let diff = pa.minus(&pb);
                    let dsq = diff.norm_squared();
                    proof {
                        assert(dsq == dist_sq_spec(pa, pb));
                    }
                    if dsq < tsq {
                        self.insert_candidate(&mut r, a, b);
                    }
                    proof {
                        if !(dsq < tsq) {
                            assert(!candidate_spec(*self, a as int, b as int)
                                || is_mesh_edge(self.faces@, a as int, b as int));
                        }
                    }
                    b = b + 1;
                }
                a = a + 1;
            }
        }
        r
    }

    /// The contraction candidate for the vertex pair `(v1, v2)`: its cost
    /// is the summed quadric evaluated at the optimal position, and is
    /// nonnegative because vertex quadrics are positive semi-definite.
    pub fn compute_edge_contraction(&self, v1: usize, v2: usize) -> (r: Pair)
        requires
            self.geom_wf(),
            self.quad_wf(QUADRIC_LIMIT as int),
            v1 < self.vertices.len(),
            v2 < self.vertices.len(),
            v1 != v2,
        ensures
            r.v1 == v1,
            r.v2 == v2,
            is_contraction_pair(*self, r),
            r.error >= 0,
            r.optimal_position.bounded(MAX_COORD as int),
    {
        let q1 = self.vertices[v1].quadric;
        let q2 = self.vertices[v2].quadric;
        let q = q1.plus(&q2);
        proof {
            assert(q == crate::quadric::mat_sum_spec(q1, q2));
            crate::quadric::lemma_sum_psd(q, q1, q2);
        }
        let p1 = self.vertices[v1].position;
        let p2 = self.vertices[v2].position;
        let opt = q.optimal_position(&p1, &p2);
        let err = q.eval(&opt);
        proof {
            assert(crate::quadric::eval_spec(q, opt.x as int, opt.y as int, opt.z as int) >= 0);
        }
        Pair { v1, v2, error: err, optimal_position: opt }
    }

    /// Rebuilds the candidate queue: one contraction candidate for every
    /// pair in the candidate set, and nothing else.
    pub fn initialize_pairs(&mut self)
        requires
            old(self).geom_wf(),
            old(self).quad_wf(QUADRIC_LIMIT as int),
        ensures
            final(self).geom_wf(),
            final(self).quad_wf(QUADRIC_LIMIT as int),
            final(self).heap_wf(),
            final(self).vertices == old(self).vertices,
            final(self).faces == old(self).faces,
            final(self).pair_length_threshold == old(self).pair_length_threshold,
            forall|k: int|
                0 <= k < final(self).heap.len() ==> is_contraction_pair(
                    *old(self),
                    #[trigger] final(self).heap[k],
                ),
            forall|k: int|
                0 <= k < final(self).heap.len() ==> candidate_spec(
                    *old(self),
                    (#[trigger] final(self).heap[k]).v1 as int,
                    final(self).heap[k].v2 as int,
                ),
            forall|a: int, b: int|
                0 <= a < b < old(self).vertices.len() && candidate_spec(*old(self), a, b)
                    ==> exists|k: int|
                    0 <= k < final(self).heap.len() && (#[trigger] final(self).heap[k]).v1
                        == a && final(self).heap[k].v2 == b,
    {
        let edges = self.compute_valid_edges();
        let mut heap: Vec<Pair> = Vec::new();
        let mut i: usize = 0;
        while i < edges.len()
            invariant
                0 <= i <= edges.len(),
                self == old(self),
                old(self).geom_wf(),
                old(self).quad_wf(QUADRIC_LIMIT as int),
                heap.len() == i,
                forall|k: int|
                    0 <= k < edges.len() ==> (#[trigger] edges[k]).0 < edges[k].1
                        < old(self).vertices.len(),
                forall|k: int|
                    0 <= k < edges.len() ==> candidate_spec(
                        *old(self),
                        (#[trigger] edges[k]).0 as int,
                        edges[k].1 as int,
                    ),
                forall|a: int, b: int|
                    0 <= a < b < old(self).vertices.len() && candidate_spec(*old(self), a, b)
                        ==> edges@.contains((a as usize, b as usize)),
                forall|k: int|
                    0 <= k < i ==> is_contraction_pair(*old(self), #[trigger] heap[k]),
                forall|k: int|
                    0 <= k < i ==> (#[trigger] heap[k]).v1 == edges[k].0 && heap[k].v2
                        == edges[k].1,
                forall|k: int|
                    0 <= k < i ==> (#[trigger] heap[k]).error >= 0
                        && heap[k].optimal_position.bounded(MAX_COORD as int),
            decreases edges.len() - i,
        {
            let e = edges[i];
            let p = self.compute_edge_contraction(e.0, e.1);
            heap.push(p);
            i = i + 1;
        }
        self.heap = heap;
        proof {
            assert forall|a: int, b: int|
                0 <= a < b < old(self).vertices.len() && candidate_spec(*old(self), a, b)
                    implies exists|k: int|
                    0 <= k < self.heap.len() && (#[trigger] self.heap[k]).v1 == a
                        && self.heap[k].v2 == b by {
                let j = choose|j: int| 0 <= j < edges@.len() && edges@[j] == (a as usize, b as usize);
                assert(self.heap[j].v1 == a && self.heap[j].v2 == b);
            }
        }
    }

    /// Removes and returns a candidate of minimum cost; the queue's only
    /// ordering key is the cost, so ties fall to the earliest entry.
    pub fn pop_min_pair(&mut self) -> (r: Option<Pair>)
        ensures
            r is None <==> old(self).heap.len() == 0,
            r is None ==> *final(self) == *old(self),
            final(self).vertices == old(self).vertices,
            final(self).faces == old(self).faces,
            final(self).pair_length_threshold == old(self).pair_length_threshold,
            match r {
                Option::Some(p) => {
                    &&& exists|k: int|
                        0 <= k < old(self).heap.len() && p == old(self).heap[k]
                            && final(self).heap@ == old(self).heap@.remove(k)
                    &&& forall|j: int|
                        0 <= j < old(self).heap.len() ==> p.error
                            <= (#[trigger] old(self).heap[j]).error
                },
                Option::None => true,
            },
    {
        if self.heap.len() == 0 {
            return Option::None;
        }
        let mut best: usize = 0;
        let mut i: usize = 1;
        while i < self.heap.len()
            invariant
                0 <= best < i <= self.heap.len(),
                self == old(self),
                self.heap.len() > 0,
                forall|j: int| 0 <= j < i ==> self.heap[best as int].error <= (#[trigger] self.heap[j]).error,
            decreases self.heap.len() - i,
        {
            if self.heap[i].error < self.heap[best].error {
                best = i;
            }
            i = i + 1;
        }
        let p = self.heap.remove(best);
        Option::Some(p)
    }

    /// Contracts the pair `(p.v1, p.v2)`: the merged vertex takes the
    /// optimal position and, exactly, the sum of its parents' quadrics;
    /// triangles referencing both endpoints are deleted; every other
    /// triangle is remapped so the vertex array stays dense. The candidate
    /// queue is emptied, since every queued cost is stale afterwards.
    pub fn contract_pair(&mut self, p: &Pair)
        requires
            old(self).geom_wf(),
            old(self).quad_wf(QUADRIC_LIMIT as int),
            p.v1 < old(self).vertices.len(),
            p.v2 < old(self).vertices.len(),
            p.v1 != p.v2,
            p.optimal_position.bounded(MAX_COORD as int),
        ensures
            final(self).geom_wf(),
            final(self).quad_wf(2 * QUADRIC_LIMIT as int),
            final(self).vertices.len() == old(self).vertices.len() - 1,
            final(self).faces.len() <= old(self).faces.len(),
            final(self).heap.len() == 0,
            final(self).pair_length_threshold == old(self).pair_length_threshold,
            final(self).vertices@ == old(self).vertices@.update(
                p.v1 as int,
                Vertex {
                    position: p.optimal_position,
                    quadric: crate::quadric::mat_sum_spec(
                        old(self).vertices[p.v1 as int].quadric,
                        old(self).vertices[p.v2 as int].quadric,
                    ),
                },
            ).remove(p.v2 as int),
            final(self).faces@ == collapse_faces_spec(
                old(self).faces@,
                p.v1 as int,
                p.v2 as int,
            ),
    {
        let v1 = p.v1;
        let v2 = p.v2;
        let q1 = self.vertices[v1].quadric;
        let q2 = self.vertices[v2].quadric;
        let q = q1.plus(&q2);
        proof {
            assert(q == crate::quadric::mat_sum_spec(q1, q2));
            crate::quadric::lemma_sum_psd(q, q1, q2);
        }
        let merged = Vertex { position: p.optimal_position, quadric: q };
        self.vertices[v1] = merged;
        self.vertices.remove(v2);
        self.heap = Vec::new();
        let ghost oldfaces = self.faces@;
        let ghost nlen = self.vertices@.len() as int;
        let m = self.faces.len();
        let mut nf: Vec<Triangle> = Vec::new();
        let mut i: usize = 0;
        while i < m
            invariant
                0 <= i <= m,
                m == self.faces.len(),
                self.faces@ == oldfaces,
                v1 < nlen + 1,
                v2 < nlen + 1,
                v1 != v2,
                nlen + 1 <= MAX_VERTICES,
                forall|j: int| 0 <= j < m ==> tri_valid(#[trigger] oldfaces[j], nlen + 1),
                nf@ == collapse_faces_spec(oldfaces.take(i as int), v1 as int, v2 as int),
                nf.len() <= i,
                forall|j: int| 0 <= j < nf.len() ==> tri_valid(#[trigger] nf[j], nlen as int),
            decreases m - i,
        {
            let t = self.faces[i];
            let keep = !((t.v1 == v1 || t.v2 == v1 || t.v3 == v1) && (t.v1 == v2 || t.v2 == v2
                || t.v3 == v2));
            if keep {
                let a1 = if t.v1 == v2 {
                    v1
                } else {
                    t.v1
                };
                let a1 = if a1 > v2 {
                    a1 - 1
                } else {
                    a1
                };
                let a2 = if t.v2 == v2 {
                    v1
                } else {
                    t.v2
                };
                let a2 = if a2 > v2 {
                    a2 - 1
                } else {
                    a2
                };
                let a3 = if t.v3 == v2 {
                    v1
                } else {
                    t.v3
                };
                let a3 = if a3 > v2 {
                    a3 - 1
                } else {
                    a3
                };
                let nt = Triangle {
                    v1: a1,
                    v2: a2,
                    v3: a3,
                    material: t.material,
                    uv1: t.uv1,
                    uv2: t.uv2,
                    uv3: t.uv3,
                };
                proof {
                    assert(nt == remap_tri(oldfaces[i as int], v1 as int, v2 as int));
                    lemma_remap_valid(oldfaces[i as int], v1 as int, v2 as int, nlen + 1);
                }
                nf.push(nt);
            }
            proof {
                assert(oldfaces.take(i as int + 1).drop_last() =~= oldfaces.take(i as int));
                assert(oldfaces.take(i as int + 1).last() == oldfaces[i as int]);
            }
            i = i + 1;
        }
        proof {
            assert(oldfaces.take(m as int) =~= oldfaces);
        }
        self.faces = nf;
    }

    /// Greedy simplification toward `target_count` faces: while the mesh is
    /// above the target and candidates remain, the cheapest pair is popped
    /// and contracted, and quadrics and candidates are rebuilt. Stopping
    /// with an exhausted queue is a partial result, not an error; the
    /// report carries the achieved count either way.
    pub fn simplify(&mut self, target_count: usize) -> (r: Result<SimplifyReport, MeshError>)
        requires
            old(self).wf(),
            forall|k: int|
                0 <= k < old(self).heap.len() ==> is_contraction_pair(
                    *old(self),
                    #[trigger] old(self).heap[k],
                ),
        ensures
            final(self).wf(),
            r is Err ==> *final(self) == *old(self),
            r is Ok <==> (target_count >= 4 && old(self).faces.len() >= target_count),
            match r {
                Result::Ok(rep) => {
                    &&& rep.initial_faces == old(self).faces.len()
                    &&& rep.final_faces == final(self).faces.len()
                    &&& final(self).faces.len() <= old(self).faces.len()
                    &&& final(self).vertices.len() + rep.collapses == old(self).vertices.len()
                    &&& rep.reached == (final(self).faces.len() <= target_count)
                    &&& (!rep.reached ==> final(self).heap.len() == 0)
                    &&& (old(self).faces.len() <= target_count ==> *final(self) == *old(self)
                        && rep.collapses == 0)
                    &&& (rep.collapses == 0 ==> *final(self) == *old(self))
                    &&& exists|tr: Seq<SurfaceSimplifier>, ps: Seq<Pair>|
                        {
                            &&& tr.len() == rep.collapses + 1
                            &&& ps.len() == rep.collapses
                            &&& tr[0] == *old(self)
                            &&& tr[rep.collapses as int] == *final(self)
                            &&& forall|c: int|
                                0 <= c < rep.collapses ==> #[trigger] collapse_step_spec(
                                    tr[c],
                                    ps[c],
                                    tr[c + 1],
                                )
                        }
                },
                Result::Err(e) => {
                    &&& (e == MeshError::InvalidTargetCount <==> target_count < 4)
                    &&& (e == MeshError::TargetExceedsFaceCount <==> (target_count >= 4 && old(
                        self,
                    ).faces.len() < target_count))
                },
            },
    {
        if target_count < 4 {
            return Result::Err(MeshError::InvalidTargetCount);
        }
        if self.faces.len() < target_count {
            return Result::Err(MeshError::TargetExceedsFaceCount);
        }
        let initial_faces = self.faces.len();
        let mut collapses: usize = 0;
        let ghost mut tr: Seq<SurfaceSimplifier> = seq![*self];
        let ghost mut ps: Seq<Pair> = Seq::empty();
        while self.faces.len() > target_count && self.heap.len() > 0
            invariant
                self.wf(),
                target_count >= 4,
                initial_faces == old(self).faces.len(),
                self.faces.len() <= initial_faces,
                self.vertices.len() + collapses == old(self).vertices.len(),
                collapses == 0 ==> self == old(self),
                collapses > 0 ==> old(self).faces.len() > target_count,
                forall|k: int|
                    0 <= k < self.heap.len() ==> is_contraction_pair(
                        *self,
                        #[trigger] self.heap[k],
                    ),
                tr.len() == collapses + 1,
                ps.len() == collapses,
                tr[0] == *old(self),
                tr[collapses as int] == *self,
                forall|c: int|
                    0 <= c < collapses ==> #[trigger] collapse_step_spec(tr[c], ps[c], tr[c + 1]),
            decreases self.vertices.len(),
        {
            let ghost before = *self;
            let popped = self.pop_min_pair();
            match popped {
                Option::Some(p) => {
                    proof {
                        assert(before.heap@.contains(p));
                        assert(is_contraction_pair(before, p));
                    }
                    self.contract_pair(&p);
                    self.compute_quadric_matrices();
                    let ghost mid = *self;
                    self.initialize_pairs();
                    collapses = collapses + 1;
                    proof {
                        assert(positions_of(self.vertices@) == positions_of(
                            before.vertices@.update(
                                p.v1 as int,
                                Vertex {
                                    position: p.optimal_position,
                                    quadric: crate::quadric::mat_sum_spec(
                                        before.vertices[p.v1 as int].quadric,
                                        before.vertices[p.v2 as int].quadric,
                                    ),
                                },
                            ).remove(p.v2 as int),
                        )) by {
                            assert(positions_of(self.vertices@) =~= positions_of(
                                before.vertices@.update(
                                    p.v1 as int,
                                    Vertex {
                                        position: p.optimal_position,
                                        quadric: crate::quadric::mat_sum_spec(
                                            before.vertices[p.v1 as int].quadric,
                                            before.vertices[p.v2 as int].quadric,
                                        ),
                                    },
                                ).remove(p.v2 as int),
                            ));
                        }
                        assert(before.heap@.contains(p));
                        assert(forall|j: int|
                            0 <= j < before.heap.len() ==> p.error <= (
                            #[trigger] before.heap[j]).error);
                        assert(is_contraction_pair(before, p));
                        assert(self.faces@ == collapse_faces_spec(
                            before.faces@,
                            p.v1 as int,
                            p.v2 as int,
                        ));
                        assert(forall|v: int|
                            0 <= v < self.vertices.len() ==> qmat_of(
                                (#[trigger] self.vertices[v]).quadric,
                            ) == accum_quadric_spec(
                                self.faces@,
                                positions_of(self.vertices@),
                                v,
                                self.faces@.len() as int,
                            ));
                        assert(self.pair_length_threshold == before.pair_length_threshold);
                        assert(forall|k: int|
                            0 <= k < self.heap.len() ==> is_contraction_pair(
                                *self,
                                #[trigger] self.heap[k],
                            ));
                        assert(forall|k: int|
                            0 <= k < self.heap.len() ==> candidate_spec(
                                *self,
                                (#[trigger] self.heap[k]).v1 as int,
                                self.heap[k].v2 as int,
                            ));
                        assert forall|a: int, b: int|
                            0 <= a < b < self.vertices.len() && candidate_spec(*self, a, b)
                                implies exists|k: int|
                                0 <= k < self.heap.len() && (#[trigger] self.heap[k]).v1 == a
                                    && self.heap[k].v2 == b by {
                            assert(candidate_spec(mid, a, b));
                        }
                        assert(collapse_step_spec(before, p, *self));
                        tr = tr.push(*self);
                        ps = ps.push(p);
                    }
                },
                Option::None => {
                    proof {
                        assert(false);
                    }
                },
            }
        }
        let final_faces = self.faces.len();
        proof {
            assert(tr.len() == collapses + 1 && ps.len() == collapses && tr[0] == *old(self)
                && tr[collapses as int] == *self && forall|c: int|
                0 <= c < collapses ==> #[trigger] collapse_step_spec(tr[c], ps[c], tr[c + 1]));
        }
        Result::Ok(
            SimplifyReport {
                initial_faces,
                final_faces,
                collapses,
                reached: final_faces <= target_count,
            },
        )
    }

    /// Recomputes every vertex quadric from scratch: each triangle's plane
    /// quadric is accumulated into its three vertices, so afterwards each
    /// vertex holds exactly the sum over its incident triangles.
    pub fn compute_quadric_matrices(&mut self)
        requires
            old(self).geom_wf(),
        ensures
            final(self).geom_wf(),
            final(self).quad_wf(QUADRIC_LIMIT as int),
            final(self).vertices.len() == old(self).vertices.len(),
            forall|i: int|
                0 <= i < old(self).vertices.len() ==> (#[trigger] final(self).vertices[i]).position
                    == old(self).vertices[i].position,
            final(self).faces == old(self).faces,
            final(self).heap == old(self).heap,
            final(self).pair_length_threshold == old(self).pair_length_threshold,
            forall|v: int|
                0 <= v < final(self).vertices.len() ==> qmat_of(
                    (#[trigger] final(self).vertices[v]).quadric,
                ) == accum_quadric_spec(
                    final(self).faces@,
                    positions_of(final(self).vertices@),
                    v,
                    final(self).faces@.len() as int,
                ),
    {
        let ghost poss = positions_of(old(self).vertices@);
        let n = self.vertices.len();
        let mut v: usize = 0;
        while v < n
            invariant
                0 <= v <= n,
                n == self.vertices.len(),
                old(self).geom_wf(),
                self.faces == old(self).faces,
                self.heap == old(self).heap,
                self.pair_length_threshold == old(self).pair_length_threshold,
                self.vertices.len() == old(self).vertices.len(),
                forall|j: int|
                    0 <= j < n ==> (#[trigger] self.vertices[j]).position
                        == old(self).vertices[j].position,
                forall|j: int|
                    0 <= j < v ==> (#[trigger] self.vertices[j]).quadric.bounded(0),
                forall|j: int|
                    0 <= j < v ==> crate::quadric::is_psd((#[trigger] self.vertices[j]).quadric),
            decreases n - v,
        {
            let pos = self.vertices[v].position;
            self.vertices[v] = Vertex::new(pos);
            v = v + 1;
        }
        proof {
            assert(positions_of(self.vertices@) =~= poss);
            assert forall|w: int| 0 <= w < n implies qmat_of(
                (#[trigger] self.vertices@[w]).quadric,
            ) == accum_quadric_spec(self.faces@, poss, w, 0) by {
                assert(self.vertices@[w].quadric.bounded(0));
            }
        }
        let m = self.faces.len();
        let mut i: usize = 0;
        while i < m
            invariant
                0 <= i <= m,
                m == self.faces.len(),
                n == self.vertices.len(),
                old(self).geom_wf(),
                self.faces == old(self).faces,
                self.heap == old(self).heap,
                self.pair_length_threshold == old(self).pair_length_threshold,
                self.vertices.len() == old(self).vertices.len(),
                m <= MAX_FACES,
                forall|j: int|
                    0 <= j < n ==> (#[trigger] self.vertices[j]).position
                        == old(self).vertices[j].position,
                poss == positions_of(self.vertices@),
                forall|j: int|
                    0 <= j < m ==> tri_valid(#[trigger] self.faces[j], n as int),
                forall|j: int|
                    0 <= j < n ==> (#[trigger] self.vertices[j]).position.bounded(MAX_COORD as int),
                forall|w: int|
                    0 <= w < n ==> qmat_of((#[trigger] self.vertices[w]).quadric)
                        == accum_quadric_spec(self.faces@, poss, w, i as int),
                forall|w: int|
                    0 <= w < n ==> (#[trigger] self.vertices[w]).quadric.bounded(
                        i as int * FACE_QUADRIC_MAX as int,
                    ),
                forall|w: int|
                    0 <= w < n ==> crate::quadric::is_psd(
                        (#[trigger] self.vertices[w]).quadric,
                    ),
            decreases m - i,
        {
            let t = self.faces[i];
            let fq = face_quadric(&t, &self.vertices);
            let ghost before = self.vertices@;
            let q1 = self.vertices[t.v1].quadric.plus(&fq);
            let pos1 = self.vertices[t.v1].position;
            self.vertices[t.v1] = Vertex { position: pos1, quadric: q1 };
            let q2 = self.vertices[t.v2].quadric.plus(&fq);
            let pos2 = self.vertices[t.v2].position;
            self.vertices[t.v2] = Vertex { position: pos2, quadric: q2 };
            let q3 = self.vertices[t.v3].quadric.plus(&fq);
            let pos3 = self.vertices[t.v3].position;
            self.vertices[t.v3] = Vertex { position: pos3, quadric: q3 };
            proof {
                assert(positions_of(self.vertices@) =~= poss);
                let fspec = tri_quadric_spec(self.faces@[i as int], poss);
                assert(qmat_of(fq) == fspec);
                crate::quadric::lemma_sum_psd(q1, before[t.v1 as int].quadric, fq);
                crate::quadric::lemma_sum_psd(q2, before[t.v2 as int].quadric, fq);
                crate::quadric::lemma_sum_psd(q3, before[t.v3 as int].quadric, fq);
                assert forall|w: int| 0 <= w < n implies qmat_of(
                    (#[trigger] self.vertices@[w]).quadric,
                ) == accum_quadric_spec(self.faces@, poss, w, i as int + 1) by {
                    if w == t.v1 as int || w == t.v2 as int || w == t.v3 as int {
                        assert(tri_contains(self.faces@[i as int], w));
                        assert(qmat_of(self.vertices@[w].quadric) == qmat_add(
                            qmat_of(before[w].quadric),
                            fspec,
                        ));
                    } else {
                        assert(!tri_contains(self.faces@[i as int], w));
                        assert(self.vertices@[w] == before[w]);
                    }
                }
            }
            i = i + 1;
        }
        proof {
            assert(m as int * FACE_QUADRIC_MAX as int <= QUADRIC_LIMIT as int) by (nonlinear_arith)
                requires
                    0 <= m <= MAX_FACES,
            {
            }
        }
    }
}

} // verus!
