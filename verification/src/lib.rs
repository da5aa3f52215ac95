//! Quadric-error mesh simplification and papercraft unfolding over exact
//! fixed-point integer geometry.

pub mod math;
pub mod quadric;
pub mod geometry;
pub mod mesh;
pub mod papercraft;

pub use math::Mat3;
pub use math::Vec2;
pub use math::Vec3;
pub use quadric::SymetricMatrix;
pub use geometry::MeshError;
pub use geometry::Pair;
pub use geometry::SimplifyReport;
pub use geometry::SurfaceSimplifier;
pub use geometry::Triangle;
pub use geometry::Vertex;
pub use geometry::target_from_ratio;
pub use mesh::Face;
pub use mesh::Mesh;
pub use mesh::Neighbour;
pub use mesh::UnfoldError;
pub use mesh::UnfoldReport;
pub use papercraft::PaperFace;
pub use papercraft::Papercraft;
