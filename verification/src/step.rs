//! The raised tile: a level surface at a given height.
use vstd::prelude::*;
use crate::mesh::{grid_lines_spec, level_mesh, Mesh};
use crate::mirror::Mirror;
use crate::rotate::Rotate;
use crate::{contact, contact_at, Interference, Normal, Vector};

verus! {

/// A square patch of level ground of side `size`, raised by `height`. A
/// level surface looks the same however it is mirrored and turned, so the
/// orientation only records how the tile was laid.
#[derive(Clone, Copy, Debug)]
pub struct Step {
    pub size: i32,
    pub height: i32,
    pub mirror: Mirror,
    pub rotate: Rotate,
}

impl Step {
    /// The footprint is not empty.
    pub open spec fn well_formed(&self) -> bool {
        self.size > 0
    }

    /// The height of the surface above `(x, y)`: `height` everywhere.
    pub open spec fn surface(&self, x: int, y: int) -> Option<int> {
        Some(self.height as int)
    }

    /// Tells whether the tile is well formed.
    pub fn is_well_formed(&self) -> (b: bool)
        ensures
            b == self.well_formed(),
    {
        self.size > 0
    }

    /// A point collides where it lies below `height`; the surface pushes
    /// straight up.
    pub fn interference(&self, point: Vector) -> (r: Option<Interference>)
        ensures
            r == contact(self.surface(point.x as int, point.y as int), Normal::up(), point),
            r is Some <==> point.z < self.height,
            r matches Some(hit) ==> crate::lies_above(hit, point),
    {
        contact_at(self.height, Normal::up(), point)
    }

    /// `mesh` is the mesh of the tile: its four corners at `height`, with
    /// normals pointing up and texture coordinates whose `v` runs against y.
    pub open spec fn is_mesh(&self, mesh: Mesh) -> bool {
        &&& mesh.is_grid(grid_lines_spec(self.size, 0), grid_lines_spec(self.size, 0), true)
        &&& forall|k: int|
            #![trigger mesh.positions@[k]]
            #![trigger mesh.normals@[k]]
            0 <= k < mesh.positions@.len() ==> mesh.positions@[k].z == self.height
                && mesh.normals@[k] == Normal::up()
    }

    /// The mesh of the tile: its four corners at `height`, with normals
    /// pointing up.
    pub fn mesh(&self) -> (mesh: Mesh)
        requires
            self.well_formed(),
        ensures
            self.is_mesh(mesh),
            mesh.well_formed(),
            mesh.positions@.len() == 4,
            mesh.indices@.len() == 6,
            mesh.counter_clockwise(),
            forall|k: int|
                0 <= k < mesh.positions@.len() ==> self.surface(
                    (#[trigger] mesh.positions@[k]).x as int,
                    mesh.positions@[k].y as int,
                ) == Some(mesh.positions@[k].z as int),
    {
        level_mesh(self.size, self.size, 0, self.height)
    }
}

} // verus!
