//! Terrain built from square tiles, with point-against-surface queries and
//! triangle meshes, in exact integer arithmetic.
//!
//! Every length is a signed 32-bit fixed-point number with 16 fractional
//! bits: [`ONE`] stands for one world unit. Intermediate products are held in
//! `i128`, so no operation rounds except the single floor division that
//! brings a result back to fixed point.
use vstd::prelude::*;
use crate::function::{Function, Sample};
use crate::mesh::Mesh;
use crate::perlin::Perlin;
use crate::plane::Plane;
use crate::step::Step;
use crate::step_slope::StepSlope;

pub mod arith;
pub mod double;
pub mod examples;
pub mod function;
pub mod mesh;
pub mod mirror;
pub mod perlin;
pub mod plane;
pub mod rotate;
pub mod step;
pub mod step_slope;

verus! {

/// The fixed-point representation of one world unit.
pub const ONE: i32 = 65536;

/// A point or a direction in space, in fixed-point world units.
#[derive(Clone, Copy, Debug, PartialEq, Eq, Structural)]
pub struct Vector {
    pub x: i32,
    pub y: i32,
    pub z: i32,
}

impl Vector {
    /// The vector with the given components.
    pub fn new(x: i32, y: i32, z: i32) -> (v: Vector)
        ensures
            v == (Vector { x, y, z }),
    {
        Vector { x, y, z }
    }
}

/// A direction in space whose length carries no meaning: consumers that
/// need a unit vector normalise it.
#[derive(Clone, Copy, Debug, PartialEq, Eq, Structural)]
pub struct Normal {
    pub x: i128,
    pub y: i128,
    pub z: i128,
}

impl Normal {
    /// The direction of the positive z axis.
    pub open spec fn spec_up() -> Normal {
        Normal { x: 0, y: 0, z: 65536 }
    }

    /// The direction of the positive z axis.
    #[verifier::when_used_as_spec(spec_up)]
    pub fn up() -> (n: Normal)
        ensures
            n == Normal::spec_up(),
    {
        Normal { x: 0, y: 0, z: 65536 }
    }

    /// The direction of the negative z axis.
    pub open spec fn spec_down() -> Normal {
        Normal { x: 0, y: 0, z: (-65536) as i128 }
    }

    /// The direction of the negative z axis.
    #[verifier::when_used_as_spec(spec_down)]
    pub fn down() -> (n: Normal)
        ensures
            n == Normal::spec_down(),
    {
        Normal { x: 0, y: 0, z: -65536 }
    }
}

/// What a point that has sunk below a surface meets.
#[derive(Clone, Copy, Debug, PartialEq, Eq, Structural)]
pub struct Interference {
    /// How far the point lies below the surface: always positive.
    pub magnitude: i64,
    /// The point of the surface straight above the query point.
    pub position: Vector,
    /// The direction in which the surface pushes back.
    pub normal: Normal,
}

/// The interference of `point` with a surface that has the height
/// `surface` above it, if it has one there: the point collides where it
/// lies strictly below the surface.
pub open spec fn contact(surface: Option<int>, normal: Normal, point: Vector) -> Option<
    Interference,
> {
    match surface {
        Some(h) => if point.z < h {
            Some(
                Interference {
                    magnitude: (h - point.z) as i64,
                    position: Vector { x: point.x, y: point.y, z: h as i32 },
                    normal,
                },
            )
        } else {
            None
        },
        None => None,
    }
}

/// `hit` lies straight above `point`, as far above it as the point has
/// sunk below the surface.
pub open spec fn lies_above(hit: Interference, point: Vector) -> bool {
    &&& hit.magnitude > 0
    &&& hit.position.x == point.x
    &&& hit.position.y == point.y
    &&& hit.position.z - point.z == hit.magnitude
}

/// Tests `point` against a surface of height `ground` above it.
pub fn contact_at(ground: i32, normal: Normal, point: Vector) -> (r: Option<Interference>)
    ensures
        r == contact(Some(ground as int), normal, point),
        r is Some <==> point.z < ground,
        r matches Some(hit) ==> lies_above(hit, point) && hit.position.z == ground && hit.normal
            == normal,
{
    if point.z < ground {
        Some(
            Interference {
                magnitude: ground as i64 - point.z as i64,
                position: Vector { x: point.x, y: point.y, z: ground },
                normal,
            },
        )
    } else {
        None
    }
}

/// A tile of terrain: a square patch of ground that answers collision
/// queries and draws itself as a mesh.
///
/// The surface of a [`Function`] tile may hold terms that the caller
/// evaluates, so every query takes their samples along: one [`Sample`] for
/// each term of the tile. The other tiles read none of them.
#[derive(Clone, Debug)]
pub enum GridElement {
    Plane(Plane),
    Step(Step),
    StepSlope(StepSlope),
    Function(Function),
    Perlin(Perlin),
}

impl GridElement {
    /// The tile of the variant is well formed.
    pub open spec fn well_formed(&self) -> bool {
        match self {
            GridElement::Plane(t) => t.well_formed(),
            GridElement::Step(t) => t.well_formed(),
            GridElement::StepSlope(t) => t.well_formed(),
            GridElement::Function(t) => t.well_formed(),
            GridElement::Perlin(t) => t.well_formed(),
        }
    }

    /// `samples` can go with a query of the tile at one point.
    pub open spec fn accepts(&self, samples: Seq<Sample>) -> bool {
        match self {
            GridElement::Function(t) => t.accepts(samples),
            _ => true,
        }
    }

    /// `table` can go with a request for the mesh of the tile.
    pub open spec fn accepts_grid(&self, table: Seq<Vec<Vec<Sample>>>) -> bool {
        match self {
            GridElement::Function(t) => t.accepts_grid(table),
            _ => true,
        }
    }

    /// The height of the surface above `(x, y)`, where the tile has one.
    pub open spec fn surface(&self, x: int, y: int, samples: Seq<Sample>) -> Option<int> {
        match self {
            GridElement::Plane(t) => t.surface(x, y),
            GridElement::Step(t) => t.surface(x, y),
            GridElement::StepSlope(t) => t.surface(x, y),
            GridElement::Function(t) => t.surface(x, y, samples),
            GridElement::Perlin(t) => t.surface(x, y),
        }
    }

    /// The direction in which the surface pushes back at `(x, y)`.
    pub open spec fn normal_at(&self, x: int, y: int, samples: Seq<Sample>) -> Normal {
        match self {
            GridElement::Plane(_) => Normal::up(),
            GridElement::Step(_) => Normal::up(),
            GridElement::StepSlope(t) => t.normal(),
            GridElement::Function(t) => t.normal_at(x, y, samples),
            GridElement::Perlin(_) => Normal::up(),
        }
    }

    /// The number of grid lines of the mesh between its borders, on each
    /// axis.
    pub open spec fn subdivisions(&self) -> int {
        match self {
            GridElement::Plane(t) => t.subdivisions as int,
            GridElement::Step(_) => 0,
            GridElement::StepSlope(_) => 0,
            GridElement::Function(t) => t.subdivisions as int,
            GridElement::Perlin(t) => t.subdivisions as int,
        }
    }

    /// No two grid lines of the mesh coincide: each side is longer, in
    /// fixed-point steps, than the mesh has subdivisions.
    pub open spec fn has_distinct_grid_lines(&self) -> bool {
        match self {
            GridElement::Plane(t) => t.size[0] > t.subdivisions && t.size[1] > t.subdivisions,
            GridElement::Function(t) => t.size[0] > t.subdivisions && t.size[1] > t.subdivisions,
            _ => true,
        }
    }

    /// `mesh` is the mesh of the tile for the samples of `table`.
    pub open spec fn is_mesh(&self, mesh: Mesh, table: Seq<Vec<Vec<Sample>>>) -> bool {
        match self {
            GridElement::Plane(t) => t.is_mesh(mesh),
            GridElement::Step(t) => t.is_mesh(mesh),
            GridElement::StepSlope(t) => t.is_mesh(mesh),
            GridElement::Function(t) => t.is_mesh(mesh, table),
            GridElement::Perlin(t) => t.is_mesh(mesh),
        }
    }

    /// The samples that belong to vertex `k` of the mesh.
    pub open spec fn vertex_samples(&self, table: Seq<Vec<Vec<Sample>>>, k: int) -> Seq<Sample> {
        table[k / (self.subdivisions() + 2)]@[k % (self.subdivisions() + 2)]@
    }

    /// Tells whether the tile is well formed.
    pub fn is_well_formed(&self) -> (b: bool)
        ensures
            b == self.well_formed(),
    {
        match self {
            GridElement::Plane(t) => t.is_well_formed(),
            GridElement::Step(t) => t.is_well_formed(),
            GridElement::StepSlope(t) => t.is_well_formed(),
            GridElement::Function(t) => t.is_well_formed(),
            GridElement::Perlin(t) => t.is_well_formed(),
        }
    }

    /// Tells whether `samples` can go with a query of the tile at one point.
    pub fn accepts_samples(&self, samples: &Vec<Sample>) -> (b: bool)
        ensures
            b == self.accepts(samples@),
    {
        match self {
            GridElement::Function(t) => t.accepts_samples(samples),
            _ => true,
        }
    }

    /// Tells whether `table` can go with a request for the mesh of the tile.
    pub fn accepts_table(&self, table: &Vec<Vec<Vec<Sample>>>) -> (b: bool)
        requires
            self.well_formed(),
        ensures
            b == self.accepts_grid(table@),
    {
        match self {
            GridElement::Function(t) => t.accepts_table(table),
            _ => true,
        }
    }

    /// Tests `point` against the surface of the tile: the point collides
    /// where the tile has a surface above or below it and the point lies
    /// strictly below that surface. The result tells how deep it lies, the
    /// point of the surface above it, and the way the surface pushes back.
    pub fn interference(&self, point: Vector, samples: &Vec<Sample>) -> (r: Option<Interference>)
        requires
            self.well_formed(),
            self.accepts(samples@),
        ensures
            r == contact(
                self.surface(point.x as int, point.y as int, samples@),
                self.normal_at(point.x as int, point.y as int, samples@),
                point,
            ),
            r matches Some(hit) ==> lies_above(hit, point),
    {
        match self {
            GridElement::Plane(t) => t.interference(point),
            GridElement::Step(t) => t.interference(point),
            GridElement::StepSlope(t) => t.interference(point),
            GridElement::Function(t) => t.interference(point, samples),
            GridElement::Perlin(t) => t.interference(point),
        }
    }

    /// The mesh of the tile: a grid of `(subdivisions + 2)` by
    /// `(subdivisions + 2)` vertices, each of them on the surface that
    /// `interference` tests, with two triangles for each cell, none of
    /// which runs clockwise as seen from above. `table[i][j]` holds the
    /// samples at the crossing of grid line `i` across x and grid line `j`
    /// across y.
    pub fn mesh(&self, table: &Vec<Vec<Vec<Sample>>>) -> (mesh: Mesh)
        requires
            self.well_formed(),
            self.accepts_grid(table@),
        ensures
            self.is_mesh(mesh, table@),
            mesh.well_formed(),
            mesh.positions@.len() == (self.subdivisions() + 2) * (self.subdivisions() + 2),
            mesh.indices@.len() == (self.subdivisions() + 1) * (self.subdivisions() + 1) * 6,
            mesh.never_clockwise(),
            self.has_distinct_grid_lines() ==> mesh.counter_clockwise(),
            forall|k: int|
                0 <= k < mesh.positions@.len() ==> self.surface(
                    (#[trigger] mesh.positions@[k]).x as int,
                    mesh.positions@[k].y as int,
                    self.vertex_samples(table@, k),
                ) == Some(mesh.positions@[k].z as int),
    {
        match self {
            GridElement::Plane(t) => t.mesh(),
            GridElement::Step(t) => t.mesh(),
            GridElement::StepSlope(t) => t.mesh(),
            GridElement::Function(t) => t.mesh(table),
            GridElement::Perlin(t) => t.mesh(),
        }
    }
}

} // verus!
