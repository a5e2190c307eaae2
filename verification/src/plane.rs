//! The flat tile: a level surface at height zero.
use vstd::prelude::*;
use crate::mesh::{
    assemble, grid_line, grid_lines, grid_lines_spec, level_mesh, lemma_grid_lines_distinct,
    lemma_grid_lines_ordered, lemma_vertex_position, non_decreasing, texture_coordinate,
    uniform_table, Mesh, Uv, MAX_SUBDIVISIONS,
};
use crate::perlin::strictly_increasing;
use crate::{contact, contact_at, Interference, Normal, Vector};

verus! {

/// A level patch of ground, `size[0]` wide and `size[1]` deep, whose mesh
/// has `subdivisions` grid lines between its borders on each axis.
#[derive(Clone, Copy, Debug)]
pub struct Plane {
    pub size: [i32; 2],
    pub subdivisions: u32,
}

impl Plane {
    /// The footprint is not empty and the vertices of the mesh can be
    /// numbered in 32 bits.
    pub open spec fn well_formed(&self) -> bool {
        &&& self.size[0] > 0
        &&& self.size[1] > 0
        &&& self.subdivisions <= MAX_SUBDIVISIONS
    }

    /// The height of the surface above `(x, y)`: zero everywhere.
    pub open spec fn surface(&self, x: int, y: int) -> Option<int> {
        Some(0)
    }

    /// The grid lines of the mesh across x.
    pub open spec fn lines_x(&self) -> Seq<i32> {
        grid_lines_spec(self.size[0], self.subdivisions)
    }

    /// The grid lines of the mesh across y.
    pub open spec fn lines_y(&self) -> Seq<i32> {
        grid_lines_spec(self.size[1], self.subdivisions)
    }

    /// Tells whether the tile is well formed.
    pub fn is_well_formed(&self) -> (b: bool)
        ensures
            b == self.well_formed(),
    {
        self.size[0] > 0 && self.size[1] > 0 && self.subdivisions <= MAX_SUBDIVISIONS
    }

    /// A point collides where it lies below height zero; the surface pushes
    /// straight up.
    pub fn interference(&self, point: Vector) -> (r: Option<Interference>)
        ensures
            r == contact(self.surface(point.x as int, point.y as int), Normal::up(), point),
            r is Some <==> point.z < 0,
            r matches Some(hit) ==> crate::lies_above(hit, point),
    {
        contact_at(0, Normal::up(), point)
    }

    /// `mesh` is the mesh of the tile: the grid over its grid lines at
    /// height zero, with normals pointing up and texture coordinates whose
    /// `v` runs against y.
    pub open spec fn is_mesh(&self, mesh: Mesh) -> bool {
        &&& mesh.is_grid(self.lines_x(), self.lines_y(), true)
        &&& forall|k: int|
            #![trigger mesh.positions@[k]]
            #![trigger mesh.normals@[k]]
            0 <= k < mesh.positions@.len() ==> mesh.positions@[k].z == 0 && mesh.normals@[k]
                == Normal::up()
    }

    /// The mesh of the tile: a level grid of `(subdivisions + 2)` by
    /// `(subdivisions + 2)` vertices with normals pointing up.
    pub fn mesh(&self) -> (mesh: Mesh)
        requires
            self.well_formed(),
        ensures
            self.is_mesh(mesh),
            mesh.well_formed(),
            mesh.positions@.len() == (self.subdivisions + 2) * (self.subdivisions + 2),
            mesh.indices@.len() == (self.subdivisions + 1) * (self.subdivisions + 1) * 6,
            mesh.never_clockwise(),
            self.size[0] > self.subdivisions && self.size[1] > self.subdivisions
                ==> mesh.counter_clockwise(),
            forall|k: int|
                0 <= k < mesh.positions@.len() ==> self.surface(
                    (#[trigger] mesh.positions@[k]).x as int,
                    mesh.positions@[k].y as int,
                ) == Some(mesh.positions@[k].z as int),
    {
        level_mesh(self.size[0], self.size[1], self.subdivisions, 0)
    }
}

/// Grid line `i` of a side of length `size` that is centred on the origin.
pub open spec fn centred_line(size: int, subdivisions: int, i: int) -> int {
    grid_line(size, subdivisions, i) - size / 2
}

/// The grid lines of a side of length `size` that is centred on the origin.
pub open spec fn centred_lines_spec(size: i32, subdivisions: u32) -> Seq<i32> {
    Seq::new(
        (subdivisions + 2) as nat,
        |i: int| centred_line(size as int, subdivisions as int, i) as i32,
    )
}

/// The height that a grey value of an image stands for: black, 0, lies
/// half a world unit below the origin and white, 255, half a unit above it.
pub open spec fn grey_height(grey: u8) -> int {
    (65536 * grey) / 255 - 32768
}

/// The grey value of the vertex at grid position `(i, j)`: the values run
/// along x first, and start over where they run out.
pub open spec fn grey_at(values: Seq<u8>, count: int, i: int, j: int) -> u8 {
    values[(j * count + i) % (values.len() as int)]
}

/// The texture coordinates of the vertex at grid position `(i, j)` of an
/// image mesh: `u` runs along y and `v` along x, both from 0 to `ONE`.
pub open spec fn image_uv(count: int, i: int, j: int) -> Uv {
    Uv { u: texture_coordinate(j, count) as i32, v: texture_coordinate(i, count) as i32 }
}

/// The grid lines of a side of length `size` that is centred on the origin.
pub fn centred_lines(size: i32, subdivisions: u32) -> (lines: Vec<i32>)
    requires
        size > 0,
        subdivisions <= MAX_SUBDIVISIONS,
    ensures
        lines@ == centred_lines_spec(size, subdivisions),
        non_decreasing(lines@),
        size > subdivisions ==> strictly_increasing(lines@),
{
    let plain = grid_lines(size, subdivisions);
    let half: i32 = size / 2;
    let mut lines: Vec<i32> = Vec::new();
    let mut i: usize = 0;
    proof {
        lemma_grid_lines_ordered(size, subdivisions);
        if size > subdivisions {
            lemma_grid_lines_distinct(size, subdivisions);
        }
    }
    while i < plain.len()
        invariant
            size > 0,
            half == size / 2,
            plain@ == grid_lines_spec(size, subdivisions),
            forall|k: int|
                0 <= k < subdivisions + 2 ==> 0 <= #[trigger] grid_line(
                    size as int,
                    subdivisions as int,
                    k,
                ) <= size,
            i <= plain@.len(),
            lines@.len() == i,
            forall|k: int| 0 <= k < i ==> lines@[k] == plain@[k] - half,
        decreases plain@.len() - i,
    {
        assert(plain@[i as int] == grid_line(size as int, subdivisions as int, i as int));
        lines.push(plain[i] - half);
        i += 1;
    }
    proof {
        assert(lines@ =~= centred_lines_spec(size, subdivisions));
        assert forall|a: int, b: int| 0 <= a <= b < lines@.len() implies lines@[a] <= lines@[b] by {
            assert(plain@[a] <= plain@[b]);
        }
        if size > subdivisions {
            assert forall|a: int, b: int| 0 <= a < b < lines@.len() implies lines@[a]
                < lines@[b] by {
                assert(plain@[a] < plain@[b]);
            }
        }
    }
    lines
}

/// The height that a grey value of an image stands for.
pub fn grey_height_of(grey: u8) -> (h: i32)
    ensures
        h == grey_height(grey),
        -32768 <= h <= 32768,
{
    (65536 * (grey as i32)) / 255 - 32768
}

/// The mesh of a square patch of side `size`, centred on the origin, whose
/// heights are read from the grey values of an image: a grid of
/// `(subdivisions + 2)` by `(subdivisions + 2)` vertices with normals
/// pointing up, and texture coordinates of which `u` runs along y and `v`
/// along x. There is no mesh where the image is empty, the side is not
/// positive, or the vertices cannot be numbered in 32 bits.
pub fn create_plane_mesh(size: i32, subdivisions: u32, values: &Vec<u8>) -> (r: Option<Mesh>)
    ensures
        r is Some <==> size > 0 && subdivisions <= MAX_SUBDIVISIONS && values@.len() > 0,
        r matches Some(mesh) ==> {
            &&& mesh.well_formed()
            &&& mesh.spans_grid(
                centred_lines_spec(size, subdivisions),
                centred_lines_spec(size, subdivisions),
            )
            &&& mesh.positions@.len() == (subdivisions + 2) * (subdivisions + 2)
            &&& mesh.indices@.len() == (subdivisions + 1) * (subdivisions + 1) * 6
            &&& mesh.never_clockwise()
            &&& size > subdivisions ==> mesh.counter_clockwise()
            &&& forall|k: int|
                #![trigger mesh.positions@[k]]
                #![trigger mesh.normals@[k]]
                #![trigger mesh.uvs@[k]]
                0 <= k < mesh.positions@.len() ==> {
                    let i = k / (subdivisions + 2);
                    let j = k % (subdivisions + 2);
                    &&& mesh.positions@[k].z == grey_height(
                        grey_at(values@, subdivisions + 2, i, j),
                    )
                    &&& mesh.normals@[k] == Normal::up()
                    &&& mesh.uvs@[k] == image_uv(subdivisions + 2, i, j)
                }
        },
{
    if size <= 0 || subdivisions > MAX_SUBDIVISIONS || values.len() == 0 {
        return None;
    }
    let count: usize = (subdivisions + 2) as usize;
    let xs = centred_lines(size, subdivisions);
    let ys = centred_lines(size, subdivisions);
    let mut heights: Vec<Vec<i32>> = Vec::new();
    let mut i: usize = 0;
    while i < count
        invariant
            count == subdivisions + 2,
            count <= 65536,
            values@.len() > 0,
            i <= count,
            heights@.len() == i,
            forall|a: int| 0 <= a < i ==> (#[trigger] heights@[a])@.len() == count,
            forall|a: int, b: int|
                0 <= a < i && 0 <= b < count ==> (#[trigger] heights@[a]@[b]) == grey_height(
                    grey_at(values@, count as int, a, b),
                ),
        decreases count - i,
    {
        let mut row: Vec<i32> = Vec::new();
        let mut j: usize = 0;
        while j < count
            invariant
                count == subdivisions + 2,
                count <= 65536,
                values@.len() > 0,
                i < count,
                j <= count,
                row@.len() == j,
                forall|b: int|
                    0 <= b < j ==> (#[trigger] row@[b]) == grey_height(
                        grey_at(values@, count as int, i as int, b),
                    ),
            decreases count - j,
        {
            proof {
                assert(0 <= j * count <= 65536 * 65536) by (nonlinear_arith)
                    requires
                        0 <= j < count,
                        count <= 65536,
                ;
            }
            let place: u64 = (j as u64) * (count as u64) + (i as u64);
            let wrapped: u64 = place % (values.len() as u64);
            row.push(grey_height_of(values[wrapped as usize]));
            j += 1;
        }
        heights.push(row);
        i += 1;
    }
    let normals = uniform_table(count, count, Normal::up());
    proof {
        assert(count * count <= 0x1_0000_0000) by (nonlinear_arith)
            requires
                count <= 65536,
        ;
    }
    let grid = assemble(&xs, &ys, &heights, &normals, false);
    let mut uvs: Vec<Uv> = Vec::new();
    let mut k: usize = 0;
    while k < grid.uvs.len()
        invariant
            k <= grid.uvs@.len(),
            uvs@.len() == k,
            forall|n: int|
                0 <= n < k ==> (#[trigger] uvs@[n]) == (Uv { u: grid.uvs@[n].v, v: grid.uvs@[n].u }),
        decreases grid.uvs@.len() - k,
    {
        let uv = grid.uvs[k];
        uvs.push(Uv { u: uv.v, v: uv.u });
        k += 1;
    }
    let mesh = Mesh { positions: grid.positions, normals: grid.normals, uvs, indices: grid.indices };
    proof {
        assert(mesh.spans_grid(xs@, ys@));
        mesh.lemma_grid_never_clockwise(xs@, ys@);
        if size > subdivisions {
            mesh.lemma_grid_counter_clockwise(xs@, ys@);
        }
        assert(mesh.indices@.len() == (count - 1) * (count - 1) * 6);
        assert forall|k: int| 0 <= k < mesh.positions@.len() implies (
        #[trigger] mesh.positions@[k]).z == grey_height(
            grey_at(values@, count as int, k / (count as int), k % (count as int)),
        ) && mesh.normals@[k] == Normal::up() && mesh.uvs@[k] == image_uv(
            count as int,
            k / (count as int),
            k % (count as int),
        ) by {
            lemma_vertex_position(count as int, count as int, k);
            assert(grid.positions@[k].z == heights@[k / (count as int)]@[k % (count as int)]);
            assert(grid.uvs@[k] == crate::mesh::grid_uv(
                count as int,
                count as int,
                k / (count as int),
                k % (count as int),
                false,
            ));
        }
    }
    Some(mesh)
}

} // verus!
