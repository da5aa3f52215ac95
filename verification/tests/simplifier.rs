//! Behavioural tests for the quadric-error simplifier.

use papermesh::{MeshError, SurfaceSimplifier, Triangle, Vec2, Vec3, Vertex};
use papermesh::geometry::target_from_ratio;

fn tri(a: usize, b: usize, c: usize) -> Triangle {
    let zero = Vec2 { x: 0, y: 0 };
    Triangle { v1: a, v2: b, v3: c, material: 0, uv1: zero, uv2: zero, uv3: zero }
}

/// A unit tetrahedron at fixed-point scale 1024.
fn tetrahedron() -> (Vec<Vec3>, Vec<Triangle>) {
    let positions = vec![
        Vec3 { x: 0, y: 0, z: 0 },
        Vec3 { x: 1024, y: 0, z: 0 },
        Vec3 { x: 0, y: 1024, z: 0 },
        Vec3 { x: 0, y: 0, z: 1024 },
    ];
    let faces = vec![tri(0, 1, 2), tri(0, 1, 3), tri(0, 2, 3), tri(1, 2, 3)];
    (positions, faces)
}

/// A regular octahedron at fixed-point scale 1024.
fn octahedron() -> (Vec<Vec3>, Vec<Triangle>) {
    let positions = vec![
        Vec3 { x: 1024, y: 0, z: 0 },
        Vec3 { x: -1024, y: 0, z: 0 },
        Vec3 { x: 0, y: 1024, z: 0 },
        Vec3 { x: 0, y: -1024, z: 0 },
        Vec3 { x: 0, y: 0, z: 1024 },
        Vec3 { x: 0, y: 0, z: -1024 },
    ];
    let faces = vec![
        tri(0, 2, 4),
        tri(2, 1, 4),
        tri(1, 3, 4),
        tri(3, 0, 4),
        tri(2, 0, 5),
        tri(1, 2, 5),
        tri(3, 1, 5),
        tri(0, 3, 5),
    ];
    (positions, faces)
}

fn build(positions: Vec<Vec3>, faces: Vec<Triangle>, threshold: i128) -> SurfaceSimplifier {
    let mut s = SurfaceSimplifier::new(positions, faces, threshold).unwrap();
    s.compute_quadric_matrices();
    s.initialize_pairs();
    s
}

#[test]
fn tetrahedron_to_target_four_is_noop() {
    let (positions, faces) = tetrahedron();
    let mut s = build(positions.clone(), faces.clone(), 0);
    let before_heap = s.heap.len();
    let report = s.simplify(4).unwrap();
    assert_eq!(report.initial_faces, 4);
    assert_eq!(report.final_faces, 4);
    assert_eq!(report.collapses, 0);
    assert!(report.reached);
    assert_eq!(s.vertices.len(), 4);
    assert_eq!(s.faces.len(), 4);
    for i in 0..4 {
        assert_eq!(s.vertices[i].position, positions[i]);
        assert_eq!(s.faces[i], faces[i]);
    }
    assert_eq!(s.heap.len(), before_heap);
}

#[test]
fn target_count_zero_is_rejected() {
    let (positions, faces) = tetrahedron();
    let mut s = build(positions, faces, 0);
    assert_eq!(s.simplify(0), Err(MeshError::InvalidTargetCount));
    assert_eq!(s.simplify(3), Err(MeshError::InvalidTargetCount));
}

#[test]
fn target_above_face_count_is_rejected() {
    let (positions, faces) = tetrahedron();
    let mut s = build(positions, faces, 0);
    assert_eq!(s.simplify(5), Err(MeshError::TargetExceedsFaceCount));
}

#[test]
fn octahedron_simplification_never_grows() {
    let (positions, faces) = octahedron();
    let mut s = build(positions, faces, 0);
    let report = s.simplify(4).unwrap();
    assert_eq!(report.initial_faces, 8);
    // Every octahedron edge is shared by exactly two triangles, so each
    // collapse removes two faces: 8 -> 6 -> 4.
    assert_eq!(report.final_faces, 4);
    assert_eq!(report.collapses, 2);
    assert!(report.reached);
    assert_eq!(report.final_faces, s.faces.len());
    // Every triangle still indexes the shrunk vertex array with three
    // distinct indices.
    for t in &s.faces {
        assert!(t.v1 < s.vertices.len());
        assert!(t.v2 < s.vertices.len());
        assert!(t.v3 < s.vertices.len());
        assert!(t.v1 != t.v2 && t.v1 != t.v3 && t.v2 != t.v3);
    }
}

#[test]
fn merged_vertex_quadric_is_exact_sum() {
    let (positions, faces) = tetrahedron();
    let mut s = build(positions, faces, 0);
    let q0 = s.vertices[0].quadric;
    let q1 = s.vertices[1].quadric;
    let p = s.compute_edge_contraction(0, 1);
    assert!(p.error >= 0);
    s.contract_pair(&p);
    let merged = s.vertices[0].quadric;
    assert_eq!(merged.m00, q0.m00 + q1.m00);
    assert_eq!(merged.m01, q0.m01 + q1.m01);
    assert_eq!(merged.m02, q0.m02 + q1.m02);
    assert_eq!(merged.m03, q0.m03 + q1.m03);
    assert_eq!(merged.m11, q0.m11 + q1.m11);
    assert_eq!(merged.m12, q0.m12 + q1.m12);
    assert_eq!(merged.m13, q0.m13 + q1.m13);
    assert_eq!(merged.m22, q0.m22 + q1.m22);
    assert_eq!(merged.m23, q0.m23 + q1.m23);
    assert_eq!(merged.m33, q0.m33 + q1.m33);
    assert_eq!(s.vertices.len(), 3);
}

#[test]
fn contraction_position_is_no_worse_than_the_midpoint() {
    let (positions, faces) = octahedron();
    let s = build(positions, faces, 0);
    for (v1, v2) in [(0usize, 2usize), (2, 4), (1, 3)] {
        let p = s.compute_edge_contraction(v1, v2);
        let q = s.vertices[v1].quadric.plus(&s.vertices[v2].quadric);
        let mid = Vec3 {
            x: (s.vertices[v1].position.x + s.vertices[v2].position.x) / 2,
            y: (s.vertices[v1].position.y + s.vertices[v2].position.y) / 2,
            z: (s.vertices[v1].position.z + s.vertices[v2].position.z) / 2,
        };
        assert!(q.eval(&p.optimal_position) <= q.eval(&mid));
    }
}

#[test]
fn zero_threshold_candidates_are_exactly_the_edges() {
    let (positions, faces) = tetrahedron();
    let s = build(positions, faces, 0);
    let mut edges = s.compute_valid_edges();
    edges.sort();
    assert_eq!(edges, vec![(0, 1), (0, 2), (0, 3), (1, 2), (1, 3), (2, 3)]);
}

#[test]
fn positive_threshold_adds_close_pairs() {
    // Two disjoint triangles whose nearest vertices are 100 units apart.
    let positions = vec![
        Vec3 { x: 0, y: 0, z: 0 },
        Vec3 { x: 1024, y: 0, z: 0 },
        Vec3 { x: 0, y: 1024, z: 0 },
        Vec3 { x: 100, y: 0, z: 0 },
        Vec3 { x: 2048, y: 0, z: 0 },
        Vec3 { x: 100, y: 1024, z: 0 },
    ];
    let faces = vec![tri(0, 1, 2), tri(3, 4, 5)];
    let s = SurfaceSimplifier::new(positions, faces, 150).unwrap();
    let edges = s.compute_valid_edges();
    // The virtual pair (0, 3) is 100 < 150 apart and shares no triangle.
    assert!(edges.contains(&(0, 3)));
    // Vertices 1 and 4 are 1024 apart: no virtual pair.
    assert!(!edges.contains(&(1, 4)));
}

#[test]
fn popped_costs_are_nonnegative_and_minimal_first() {
    let (positions, faces) = octahedron();
    let mut s = build(positions, faces, 0);
    let mut last = -1i128;
    while let Some(p) = s.pop_min_pair() {
        assert!(p.error >= 0);
        assert!(p.error >= last);
        last = p.error;
    }
    assert!(s.heap.is_empty());
}

#[test]
fn degenerate_meshes_are_rejected() {
    let p2 = vec![Vec3 { x: 0, y: 0, z: 0 }, Vec3 { x: 1, y: 0, z: 0 }];
    assert_eq!(
        SurfaceSimplifier::new(p2, vec![tri(0, 1, 0)], 0).err(),
        Some(MeshError::DegenerateInput)
    );
    let (positions, _) = tetrahedron();
    assert_eq!(
        SurfaceSimplifier::new(positions, vec![], 0).err(),
        Some(MeshError::DegenerateInput)
    );
}

#[test]
fn invalid_triangles_are_rejected() {
    let (positions, _) = tetrahedron();
    assert_eq!(
        SurfaceSimplifier::new(positions.clone(), vec![tri(0, 1, 7)], 0).err(),
        Some(MeshError::InvalidTriangle)
    );
    assert_eq!(
        SurfaceSimplifier::new(positions, vec![tri(0, 1, 1)], 0).err(),
        Some(MeshError::InvalidTriangle)
    );
}

#[test]
fn out_of_range_coordinates_are_rejected() {
    let positions = vec![
        Vec3 { x: 0, y: 0, z: 0 },
        Vec3 { x: 1024, y: 0, z: 0 },
        Vec3 { x: 0, y: 70000, z: 0 },
    ];
    assert_eq!(
        SurfaceSimplifier::new(positions, vec![tri(0, 1, 2)], 0).err(),
        Some(MeshError::CoordinateOutOfRange)
    );
}

#[test]
fn negative_threshold_is_rejected() {
    let (positions, faces) = tetrahedron();
    assert_eq!(
        SurfaceSimplifier::new(positions, faces, -1).err(),
        Some(MeshError::InvalidThreshold)
    );
}

#[test]
fn ratio_converts_by_rounding_half_up() {
    assert_eq!(target_from_ratio(10, 1, 2), Ok(5));
    assert_eq!(target_from_ratio(10, 1, 3), Ok(3));
    assert_eq!(target_from_ratio(10, 2, 3), Ok(7));
    assert_eq!(target_from_ratio(10, 1, 1), Ok(10));
    assert_eq!(target_from_ratio(7, 1, 2), Ok(4));
    assert_eq!(target_from_ratio(10, 0, 2), Err(MeshError::InvalidRatio));
    assert_eq!(target_from_ratio(10, 3, 2), Err(MeshError::InvalidRatio));
    assert_eq!(target_from_ratio(10, 1, 0), Err(MeshError::InvalidRatio));
}

#[test]
fn fresh_vertices_start_with_zero_quadric() {
    let v = Vertex::new(Vec3 { x: 5, y: 6, z: 7 });
    assert_eq!(v.position, Vec3 { x: 5, y: 6, z: 7 });
    assert_eq!(v.quadric.m00, 0);
    assert_eq!(v.quadric.m33, 0);
}

#[test]
fn material_tags_survive_contraction() {
    let positions = vec![
        Vec3 { x: 0, y: 0, z: 0 },
        Vec3 { x: 1024, y: 0, z: 0 },
        Vec3 { x: 0, y: 1024, z: 0 },
        Vec3 { x: 1024, y: 1024, z: 0 },
        Vec3 { x: 2048, y: 0, z: 0 },
    ];
    let uv = |n: i128| Vec2 { x: n, y: n + 1 };
    let faces = vec![
        Triangle { v1: 0, v2: 1, v3: 2, material: 3, uv1: uv(10), uv2: uv(20), uv3: uv(30) },
        Triangle { v1: 1, v2: 3, v3: 2, material: 5, uv1: uv(40), uv2: uv(50), uv3: uv(60) },
        Triangle { v1: 1, v2: 4, v3: 3, material: 9, uv1: uv(70), uv2: uv(80), uv3: uv(90) },
    ];
    let mut s = build(positions, faces, 0);
    // Contract the edge (0, 2): the first triangle degenerates, the others
    // survive with their materials and texture coordinates untouched.
    let p = s.compute_edge_contraction(0, 2);
    s.contract_pair(&p);
    let mats: Vec<i32> = s.faces.iter().map(|t| t.material).collect();
    assert_eq!(mats, vec![5, 9]);
    assert_eq!(s.faces[0].uv1, uv(40));
    assert_eq!(s.faces[0].uv2, uv(50));
    assert_eq!(s.faces[0].uv3, uv(60));
    assert_eq!(s.faces[1].uv1, uv(70));
    assert_eq!(s.faces[1].uv2, uv(80));
    assert_eq!(s.faces[1].uv3, uv(90));
}
