//! Collecting flattened faces onto fixed-size pages.
//!
//! A flattened face lies in a plane of constant `y`, so its outline is the
//! 2D polygon obtained by dropping that coordinate. Packing policy is left
//! to the caller; this component only accumulates patches per sheet.

use vstd::prelude::*;

use crate::math::Vec2;
use crate::mesh::Face;
use crate::geometry::MeshError;

verus! {

/// Default page width, in millimetres.
pub const DEFAULT_PAGE_WIDTH: usize = 210;

/// Default page height, in millimetres.
pub const DEFAULT_PAGE_HEIGHT: usize = 297;

/// The 2D outline of one flattened face: its vertices with the constant
/// out-of-plane coordinate dropped.
pub struct PaperFace {
    pub points: Vec<Vec2>,
}

impl PaperFace {
    /// Projects a flattened face to the page plane, keeping `x` and `z`.
    pub fn new(face: &Face) -> (r: PaperFace)
        ensures
            r.points.len() == 3,
            r.points[0] == (Vec2 { x: face.v0.x, y: face.v0.z }),
            r.points[1] == (Vec2 { x: face.v1.x, y: face.v1.z }),
            r.points[2] == (Vec2 { x: face.v2.x, y: face.v2.z }),
    {
        let mut points: Vec<Vec2> = Vec::new();
        points.push(Vec2 { x: face.v0.x, y: face.v0.z });
        points.push(Vec2 { x: face.v1.x, y: face.v1.z });
        points.push(Vec2 { x: face.v2.x, y: face.v2.z });
        PaperFace { points }
    }
}

/// One papercraft sheet: a page size in millimetres and the patches placed
/// on it.
pub struct Papercraft {
    pub size_mm: (usize, usize),
    pub faces: Vec<PaperFace>,
}

impl Papercraft {
    /// An empty sheet of the default size.
    pub fn new() -> (r: Papercraft)
        ensures
            r.size_mm == (DEFAULT_PAGE_WIDTH, DEFAULT_PAGE_HEIGHT),
            r.faces.len() == 0,
    {
        Papercraft { size_mm: (DEFAULT_PAGE_WIDTH, DEFAULT_PAGE_HEIGHT), faces: Vec::new() }
    }

    /// An empty sheet of the given size; both dimensions must be positive.
    pub fn with_size(width_mm: usize, height_mm: usize) -> (r: Result<Papercraft, MeshError>)
        ensures
            r is Ok <==> (width_mm > 0 && height_mm > 0),
            match r {
                Result::Ok(p) => p.size_mm == (width_mm, height_mm) && p.faces.len() == 0,
                Result::Err(e) => e == MeshError::InvalidPageSize,
            },
    {
        if width_mm == 0 || height_mm == 0 {
            return Result::Err(MeshError::InvalidPageSize);
        }
        Result::Ok(Papercraft { size_mm: (width_mm, height_mm), faces: Vec::new() })
    }

    /// Places the outline of a flattened face on this sheet. Whether two
    /// patches of a sheet overlap is decided before placement, from the
    /// colliding pairs listed in the unfolding report; layout policy for
    /// resolving such collisions is the caller's.
    pub fn add_face(&mut self, face: &Face)
        ensures
            final(self).size_mm == old(self).size_mm,
            final(self).faces.len() == old(self).faces.len() + 1,
            forall|i: int|
                0 <= i < old(self).faces.len() ==> (#[trigger] final(self).faces[i])
                    == old(self).faces[i],
            final(self).faces[old(self).faces.len() as int].points@ =~= seq![
                (Vec2 { x: face.v0.x, y: face.v0.z }),
                (Vec2 { x: face.v1.x, y: face.v1.z }),
                (Vec2 { x: face.v2.x, y: face.v2.z }),
            ],
    {
        let pf = PaperFace::new(face);
        self.faces.push(pf);
    }
}

} // verus!
