//! Behavioural tests for the face graph, unfolding, and page assembly.

use papermesh::{Face, Mesh, MeshError, Papercraft, Triangle, Vec2, Vec3};
use papermesh::mesh::UnfoldError;

fn tri(a: usize, b: usize, c: usize) -> Triangle {
    let zero = Vec2 { x: 0, y: 0 };
    Triangle { v1: a, v2: b, v3: c, material: 0, uv1: zero, uv2: zero, uv3: zero }
}

/// A flat quad at height `y == 512`, split into two triangles sharing the
/// diagonal edge `(0, 2)`.
fn flat_quad() -> (Vec<Vec3>, Vec<Triangle>) {
    let positions = vec![
        Vec3 { x: 0, y: 512, z: 0 },
        Vec3 { x: 1024, y: 512, z: 0 },
        Vec3 { x: 1024, y: 512, z: 1024 },
        Vec3 { x: 0, y: 512, z: 1024 },
    ];
    let faces = vec![tri(0, 1, 2), tri(0, 2, 3)];
    (positions, faces)
}

/// Three coplanar triangles forming a fan around vertex 0.
fn coplanar_fan() -> (Vec<Vec3>, Vec<Triangle>) {
    let positions = vec![
        Vec3 { x: 0, y: 0, z: 0 },
        Vec3 { x: 1024, y: 0, z: 0 },
        Vec3 { x: 512, y: 0, z: 1024 },
        Vec3 { x: -512, y: 0, z: 1024 },
        Vec3 { x: -1024, y: 0, z: 0 },
    ];
    let faces = vec![tri(0, 1, 2), tri(0, 2, 3), tri(0, 3, 4)];
    (positions, faces)
}

#[test]
fn quad_builds_one_neighbour_pair() {
    let (positions, faces) = flat_quad();
    let mesh = Mesh::new(&faces, &positions).unwrap();
    assert_eq!(mesh.faces.len(), 2);
    assert_eq!(mesh.neighbours.len(), 2);
    assert!(mesh.non_manifold_edges.is_empty());
    let n0 = &mesh.neighbours[0];
    let n1 = &mesh.neighbours[1];
    assert_eq!(n0.parent, n1.child);
    assert_eq!(n0.child, n1.parent);
    assert_ne!(n0.parent, n0.child);
    // The furthest vertex of face 0 over the shared edge (0, 2) is its
    // local vertex 1, and of face 1 its local vertex 2.
    assert_eq!(mesh.faces[0].id, 0);
    assert_eq!(mesh.faces[1].id, 1);
}

#[test]
fn quad_unfolds_flat_and_clean_from_either_seed() {
    for seed in 0..2 {
        let (positions, faces) = flat_quad();
        let mut mesh = Mesh::new(&faces, &positions).unwrap();
        let report = mesh.unfold(seed).unwrap();
        assert_eq!(report.patch.len(), 2);
        assert_eq!(report.patch[0], seed);
        assert!(mesh.faces[0].is_flat(), "face 0 not flat from seed {seed}");
        assert!(mesh.faces[1].is_flat(), "face 1 not flat from seed {seed}");
        assert!(report.collisions.is_empty());
    }
}

#[test]
fn coplanar_fan_unfolds_flat_and_pairwise_clean() {
    let (positions, faces) = coplanar_fan();
    let mut mesh = Mesh::new(&faces, &positions).unwrap();
    let report = mesh.unfold(0).unwrap();
    assert_eq!(report.patch.len(), 3);
    for f in &mesh.faces {
        assert!(f.is_flat(), "face {} not flat", f.id);
    }
    assert!(report.collisions.is_empty());
    for i in 0..mesh.faces.len() {
        for j in 0..mesh.faces.len() {
            if i != j {
                assert!(!mesh.faces[i].collide(&mesh.faces[j]));
            }
        }
    }
}

#[test]
fn folded_pair_becomes_flat() {
    // Two faces of a tetrahedron sharing an edge: genuinely non-coplanar.
    let positions = vec![
        Vec3 { x: 0, y: 0, z: 0 },
        Vec3 { x: 1024, y: 0, z: 0 },
        Vec3 { x: 0, y: 1024, z: 0 },
        Vec3 { x: 0, y: 0, z: 1024 },
    ];
    let faces = vec![tri(0, 1, 2), tri(0, 1, 3)];
    let mut mesh = Mesh::new(&faces, &positions).unwrap();
    let report = mesh.unfold(0).unwrap();
    assert_eq!(report.patch.len(), 2);
    assert!(mesh.faces[0].is_flat(), "seed face not flat");
    assert!(mesh.faces[1].is_flat(), "folded face not flat");
}

#[test]
fn forty_five_degree_fold_becomes_flat() {
    // A tent: one face in the plane y == 0, the other rising at 45 degrees
    // over the shared edge along the x axis. The fold angle is irrational
    // at this scale, so the rotation is genuinely rounded.
    let positions = vec![
        Vec3 { x: 0, y: 0, z: 0 },
        Vec3 { x: 4096, y: 0, z: 0 },
        Vec3 { x: 2048, y: 0, z: -4096 },
        Vec3 { x: 2048, y: 2896, z: 2896 },
    ];
    let faces = vec![tri(0, 1, 2), tri(0, 1, 3)];
    let mut mesh = Mesh::new(&faces, &positions).unwrap();
    let report = mesh.unfold(0).unwrap();
    assert_eq!(report.patch.len(), 2);
    assert!(mesh.faces[0].is_flat(), "seed face not flat");
    assert!(mesh.faces[1].is_flat(), "folded face not flat");
    assert!(report.collisions.is_empty());
}

#[test]
fn unfolding_twice_leaves_faces_untouched() {
    let (positions, faces) = flat_quad();
    let mut mesh = Mesh::new(&faces, &positions).unwrap();
    mesh.unfold(0).unwrap();
    let v_before: Vec<(i128, i128, i128)> = mesh
        .faces
        .iter()
        .map(|f| (f.v0.x, f.v0.y, f.v0.z))
        .collect();
    let flat_before: Vec<bool> = mesh.faces.iter().map(|f| f.is_flat()).collect();
    let report = mesh.unfold(0).unwrap();
    let v_after: Vec<(i128, i128, i128)> = mesh
        .faces
        .iter()
        .map(|f| (f.v0.x, f.v0.y, f.v0.z))
        .collect();
    let flat_after: Vec<bool> = mesh.faces.iter().map(|f| f.is_flat()).collect();
    assert_eq!(v_before, v_after);
    assert_eq!(flat_before, flat_after);
    assert_eq!(report.patch, vec![0]);
}

#[test]
fn collision_test_is_symmetric() {
    // Two overlapping flat triangles.
    let a = Face::new(
        0,
        Vec3 { x: 0, y: 0, z: 0 },
        Vec3 { x: 1000, y: 0, z: 0 },
        Vec3 { x: 0, y: 0, z: 1000 },
    );
    let b = Face::new(
        1,
        Vec3 { x: 100, y: 0, z: 100 },
        Vec3 { x: 1100, y: 0, z: 100 },
        Vec3 { x: 100, y: 0, z: 1100 },
    );
    assert!(a.collide(&b));
    assert!(b.collide(&a));
    // Two disjoint triangles.
    let c = Face::new(
        2,
        Vec3 { x: 5000, y: 0, z: 5000 },
        Vec3 { x: 6000, y: 0, z: 5000 },
        Vec3 { x: 5000, y: 0, z: 6000 },
    );
    assert!(!a.collide(&c));
    assert!(!c.collide(&a));
    assert_eq!(a.collide(&b), b.collide(&a));
    assert_eq!(a.collide(&c), c.collide(&a));
}

#[test]
fn touching_along_an_edge_is_not_a_collision() {
    let a = Face::new(
        0,
        Vec3 { x: 0, y: 0, z: 0 },
        Vec3 { x: 1024, y: 0, z: 0 },
        Vec3 { x: 1024, y: 0, z: 1024 },
    );
    let b = Face::new(
        1,
        Vec3 { x: 0, y: 0, z: 0 },
        Vec3 { x: 1024, y: 0, z: 1024 },
        Vec3 { x: 0, y: 0, z: 1024 },
    );
    assert!(!a.collide(&b));
    assert!(!b.collide(&a));
}

#[test]
fn flatness_check_reads_the_normal() {
    let flat = Face::new(
        0,
        Vec3 { x: 0, y: 300, z: 0 },
        Vec3 { x: 1024, y: 300, z: 0 },
        Vec3 { x: 0, y: 300, z: 1024 },
    );
    assert!(flat.is_flat());
    // The check is a pure function of the face: asking twice reports the
    // same answer.
    assert!(flat.is_flat());
    let tilted = Face::new(
        1,
        Vec3 { x: 0, y: 0, z: 0 },
        Vec3 { x: 1024, y: 1024, z: 0 },
        Vec3 { x: 0, y: 0, z: 1024 },
    );
    assert!(!tilted.is_flat());
    assert!(!tilted.is_flat());
}

#[test]
fn non_manifold_edges_are_reported() {
    let positions = vec![
        Vec3 { x: 0, y: 0, z: 0 },
        Vec3 { x: 1024, y: 0, z: 0 },
        Vec3 { x: 0, y: 1024, z: 0 },
        Vec3 { x: 0, y: 0, z: 1024 },
        Vec3 { x: 0, y: 0, z: -1024 },
    ];
    let faces = vec![tri(0, 1, 2), tri(0, 1, 3), tri(0, 1, 4)];
    let mesh = Mesh::new(&faces, &positions).unwrap();
    assert_eq!(mesh.non_manifold_edges, vec![(0, 1)]);
}

#[test]
fn mesh_construction_rejects_bad_input() {
    let (positions, _) = flat_quad();
    assert_eq!(
        Mesh::new(&vec![tri(0, 1, 9)], &positions).err(),
        Some(MeshError::InvalidTriangle)
    );
    let few = vec![Vec3 { x: 0, y: 0, z: 0 }];
    assert_eq!(
        Mesh::new(&vec![tri(0, 0, 0)], &few).err(),
        Some(MeshError::DegenerateInput)
    );
}

#[test]
fn degenerate_neighbour_face_stops_the_fold() {
    // The second face's far vertex lies on the shared edge itself, so the
    // perpendicular needed for the fold rotation vanishes.
    let positions = vec![
        Vec3 { x: 0, y: 0, z: 0 },
        Vec3 { x: 1024, y: 0, z: 0 },
        Vec3 { x: 0, y: 0, z: -1024 },
        Vec3 { x: 512, y: 0, z: 0 },
    ];
    let faces = vec![tri(0, 1, 2), tri(0, 1, 3)];
    let mut mesh = Mesh::new(&faces, &positions).unwrap();
    assert_eq!(mesh.unfold(0).err(), Some(UnfoldError::FaceTooAcute));
}

#[test]
fn out_of_range_seed_is_rejected() {
    let (positions, faces) = flat_quad();
    let mut mesh = Mesh::new(&faces, &positions).unwrap();
    assert_eq!(mesh.unfold(7).err(), Some(UnfoldError::InvalidSeed));
}

#[test]
fn pages_default_to_a4_and_validate_size() {
    let page = Papercraft::new();
    assert_eq!(page.size_mm, (210, 297));
    assert!(page.faces.is_empty());
    assert!(Papercraft::with_size(0, 100).is_err());
    assert!(Papercraft::with_size(100, 0).is_err());
    let custom = Papercraft::with_size(100, 150).unwrap();
    assert_eq!(custom.size_mm, (100, 150));
}

#[test]
fn page_patches_drop_the_vertical_coordinate() {
    let f = Face::new(
        0,
        Vec3 { x: 1, y: 512, z: 2 },
        Vec3 { x: 3, y: 512, z: 4 },
        Vec3 { x: 5, y: 512, z: 6 },
    );
    let mut page = Papercraft::new();
    page.add_face(&f);
    assert_eq!(page.faces.len(), 1);
    let pts = &page.faces[0].points;
    assert_eq!(pts[0], Vec2 { x: 1, y: 2 });
    assert_eq!(pts[1], Vec2 { x: 3, y: 4 });
    assert_eq!(pts[2], Vec2 { x: 5, y: 6 });
}
