//! The ramp tile: a surface that rises linearly across the tile.
use vstd::prelude::*;
use crate::arith::{floor_div, lemma_mul_bounds};
use crate::function::{lemma_ramp_value_bounds, ramp_value};
use crate::mesh::{
    assemble, grid_lines, grid_lines_spec, lemma_grid_lines_distinct, lemma_grid_lines_ordered,
    lemma_vertex_position, uniform_table, Mesh,
};
use crate::mirror::Mirror;
use crate::rotate::Rotate;
use crate::{contact, contact_at, Interference, Normal, Vector};

verus! {

/// A square ramp of side `size`. Before it is oriented, it rises along x
/// from 0 at `x == 0` to `height` at `x == size`. The tile is first
/// mirrored and then turned about its centre.
#[derive(Clone, Copy, Debug)]
pub struct StepSlope {
    pub size: i32,
    pub height: i32,
    pub mirror: Mirror,
    pub rotate: Rotate,
}

impl StepSlope {
    /// The footprint is not empty.
    pub open spec fn well_formed(&self) -> bool {
        self.size > 0
    }

    /// `(x, y)` lies on the tile, its border included.
    pub open spec fn on_tile(&self, x: int, y: int) -> bool {
        0 <= x <= self.size && 0 <= y <= self.size
    }

    /// The point of the ramp, before it is oriented, that lies at `(x, y)`
    /// once it is.
    pub open spec fn to_local_spec(&self, x: int, y: int) -> (int, int) {
        let turned = self.rotate.to_local_spec(self.size as int, x, y);
        self.mirror.apply(self.size as int, turned.0, turned.1)
    }

    /// The height of the surface above a point of the tile.
    pub open spec fn surface(&self, x: int, y: int) -> Option<int> {
        if self.on_tile(x, y) {
            Some(ramp_value(0, self.height as int, self.size as int, self.to_local_spec(x, y).0))
        } else {
            None
        }
    }

    /// The direction in which the surface pushes back, the same all over
    /// the ramp: it leans against the rise by `height` for every `size` that
    /// it stands up.
    pub open spec fn normal(&self) -> Normal {
        let origin = self.to_local_spec(0, 0).0;
        let along_x = self.to_local_spec(1, 0).0 - origin;
        let along_y = self.to_local_spec(0, 1).0 - origin;
        Normal {
            x: (-(self.height * along_x)) as i128,
            y: (-(self.height * along_y)) as i128,
            z: self.size as i128,
        }
    }

    /// Tells whether the tile is well formed.
    pub fn is_well_formed(&self) -> (b: bool)
        ensures
            b == self.well_formed(),
    {
        self.size > 0
    }

    /// The point of the ramp, before it is oriented, that lies at `(x, y)`
    /// once it is.
    pub fn to_local(&self, x: i32, y: i32) -> (p: (i32, i32))
        requires
            self.well_formed(),
            self.on_tile(x as int, y as int),
        ensures
            (p.0 as int, p.1 as int) == self.to_local_spec(x as int, y as int),
            0 <= p.0 <= self.size,
            0 <= p.1 <= self.size,
    {
        let turned = self.rotate.to_local(self.size, x, y);
        self.mirror.to_local(self.size, turned.0, turned.1)
    }

    /// The direction in which the surface pushes back.
    pub fn normal_of(&self) -> (n: Normal)
        requires
            self.well_formed(),
        ensures
            n == self.normal(),
    {
        let origin = self.to_local(0, 0).0;
        let along_x: i128 = self.to_local(1, 0).0 as i128 - origin as i128;
        let along_y: i128 = self.to_local(0, 1).0 as i128 - origin as i128;
        proof {
            lemma_mul_bounds(self.height as int, along_x as int, 0x8000_0000, 0x8000_0000);
            lemma_mul_bounds(self.height as int, along_y as int, 0x8000_0000, 0x8000_0000);
        }
        Normal {
            x: -((self.height as i128) * along_x),
            y: -((self.height as i128) * along_y),
            z: self.size as i128,
        }
    }

    /// The height of the surface above `(x, y)`, where the point lies on the
    /// tile.
    pub fn surface_at(&self, x: i32, y: i32) -> (r: Option<i32>)
        requires
            self.well_formed(),
        ensures
            r is Some <==> self.on_tile(x as int, y as int),
            r matches Some(h) ==> self.surface(x as int, y as int) == Some(h as int),
    {
        if x < 0 || x > self.size || y < 0 || y > self.size {
            return None;
        }
        let (u, _v) = self.to_local(x, y);
        proof {
            lemma_mul_bounds(self.height as int, u as int, 0x8000_0000, 0x8000_0000);
            lemma_ramp_value_bounds(0, self.height as int, self.size as int, u as int);
        }
        let rise: i128 = floor_div((self.height as i128) * (u as i128), self.size as i128);
        Some(rise as i32)
    }

    /// A point collides where it lies on the tile and below the ramp there.
    pub fn interference(&self, point: Vector) -> (r: Option<Interference>)
        requires
            self.well_formed(),
        ensures
            r == contact(self.surface(point.x as int, point.y as int), self.normal(), point),
            !self.on_tile(point.x as int, point.y as int) ==> r is None,
            r matches Some(hit) ==> crate::lies_above(hit, point),
    {
        match self.surface_at(point.x, point.y) {
            Some(ground) => contact_at(ground, self.normal_of(), point),
            None => None,
        }
    }

    /// `mesh` is the mesh of the tile: its four corners on the ramp, with
    /// the normal of the ramp and texture coordinates whose `v` runs against
    /// y.
    pub open spec fn is_mesh(&self, mesh: Mesh) -> bool {
        &&& mesh.is_grid(grid_lines_spec(self.size, 0), grid_lines_spec(self.size, 0), true)
        &&& forall|k: int|
            #![trigger mesh.positions@[k]]
            #![trigger mesh.normals@[k]]
            0 <= k < mesh.positions@.len() ==> self.surface(
                mesh.positions@[k].x as int,
                mesh.positions@[k].y as int,
            ) == Some(mesh.positions@[k].z as int) && mesh.normals@[k] == self.normal()
    }

    /// The mesh of the tile: its four corners on the ramp.
    pub fn mesh(&self) -> (mesh: Mesh)
        requires
            self.well_formed(),
        ensures
            self.is_mesh(mesh),
            mesh.well_formed(),
            mesh.positions@.len() == 4,
            mesh.indices@.len() == 6,
            mesh.counter_clockwise(),
            forall|k: int|
                0 <= k < mesh.positions@.len() ==> self.surface(
                    (#[trigger] mesh.positions@[k]).x as int,
                    mesh.positions@[k].y as int,
                ) == Some(mesh.positions@[k].z as int),
            forall|k: int|
                0 <= k < mesh.normals@.len() ==> (#[trigger] mesh.normals@[k]) == self.normal(),
    {
        let lines = grid_lines(self.size, 0);
        proof {
            lemma_grid_lines_ordered(self.size, 0);
            lemma_grid_lines_distinct(self.size, 0);
            assert(lines@[0] == 0 && lines@[1] == self.size);
        }
        let mut heights: Vec<Vec<i32>> = Vec::new();
        let mut i: usize = 0;
        while i < 2
            invariant
                self.well_formed(),
                i <= 2,
                lines@.len() == 2,
                lines@[0] == 0,
                lines@[1] == self.size,
                heights@.len() == i,
                forall|a: int| 0 <= a < i ==> (#[trigger] heights@[a])@.len() == 2,
                forall|a: int, b: int|
                    0 <= a < i && 0 <= b < 2 ==> self.surface(lines@[a] as int, lines@[b] as int)
                        == Some((#[trigger] heights@[a]@[b]) as int),
            decreases 2 - i,
        {
            let mut row: Vec<i32> = Vec::new();
            let mut j: usize = 0;
            while j < 2
                invariant
                    self.well_formed(),
                    i < 2,
                    j <= 2,
                    lines@.len() == 2,
                    lines@[0] == 0,
                    lines@[1] == self.size,
                    row@.len() == j,
                    forall|b: int|
                        0 <= b < j ==> self.surface(lines@[i as int] as int, lines@[b] as int)
                            == Some((#[trigger] row@[b]) as int),
                decreases 2 - j,
            {
                match self.surface_at(lines[i], lines[j]) {
                    Some(h) => row.push(h),
                    None => row.push(0),
                }
                j += 1;
            }
            heights.push(row);
            i += 1;
        }
        let normals = uniform_table(2, 2, self.normal_of());
        let mesh = assemble(&lines, &lines, &heights, &normals, true);
        proof {
            mesh.lemma_grid_counter_clockwise(lines@, lines@);
            assert(lines@ == grid_lines_spec(self.size, 0));
            assert forall|k: int| 0 <= k < mesh.positions@.len() implies self.surface(
                (#[trigger] mesh.positions@[k]).x as int,
                mesh.positions@[k].y as int,
            ) == Some(mesh.positions@[k].z as int) && mesh.normals@[k] == self.normal() by {
                lemma_vertex_position(2, 2, k);
            }
        }
        mesh
    }
}

} // verus!
