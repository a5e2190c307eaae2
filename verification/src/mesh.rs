//! Triangle meshes over a rectangular grid of vertices.
//!
//! Vertices are numbered along the y axis first: vertex `i * rows + j`
//! stands at grid position `(i, j)`, where `rows` is the number of vertices
//! along y. Each grid cell is split into two triangles along the diagonal
//! from its lower-left to its upper-right corner.
use vstd::prelude::*;
use vstd::arithmetic::div_mod::lemma_fundamental_div_mod_converse;
use crate::{Normal, Vector};

verus! {

/// The vertex that stands at grid position `(i, j)`.
pub open spec fn vertex_index(rows: int, i: int, j: int) -> int {
    i * rows + j
}

/// The entry `n` of the index buffer of a grid with `rows` vertices along
/// y: cell `(x, y)` is the cell number `x * (rows - 1) + y`, and its six
/// entries are the triangles (lower-left, lower-right, upper-right) and
/// (lower-left, upper-right, upper-left).
pub open spec fn grid_index(rows: int, n: int) -> int {
    let cell = n / 6;
    let x = cell / (rows - 1);
    let y = cell % (rows - 1);
    let bl = vertex_index(rows, x, y);
    let tl = bl + 1;
    let br = bl + rows;
    let tr = br + 1;
    let k = n % 6;
    if k == 0 || k == 3 {
        bl
    } else if k == 1 {
        br
    } else if k == 2 || k == 4 {
        tr
    } else {
        tl
    }
}

/// The index buffer of a grid of `columns` by `rows` vertices.
pub open spec fn grid_indices_spec(columns: int, rows: int) -> Seq<u32> {
    Seq::new(((columns - 1) * (rows - 1) * 6) as nat, |n: int| grid_index(rows, n) as u32)
}

/// `i * rows + j` splits back into `i` and `j`.
pub proof fn lemma_vertex_index_split(rows: int, i: int, j: int)
    requires
        0 <= j < rows,
    ensures
        vertex_index(rows, i, j) / rows == i,
        vertex_index(rows, i, j) % rows == j,
{
    lemma_fundamental_div_mod_converse(i * rows + j, rows, i, j);
}

/// Vertex `k` of a grid stands at a grid position within the grid.
pub proof fn lemma_vertex_position(columns: int, rows: int, k: int)
    by (nonlinear_arith)
    requires
        rows > 0,
        0 <= k < columns * rows,
    ensures
        0 <= k / rows < columns,
        0 <= k % rows < rows,
{
}

/// A vertex of the grid has a number below the count of vertices.
pub proof fn lemma_vertex_index_bound(columns: int, rows: int, i: int, j: int)
    by (nonlinear_arith)
    requires
        0 <= i < columns,
        0 <= j < rows,
    ensures
        0 <= vertex_index(rows, i, j) < columns * rows,
{
}

/// The index buffer of a grid of `columns` by `rows` vertices: two
/// counter-clockwise triangles for each cell.
pub fn grid_indices(columns: u32, rows: u32) -> (indices: Vec<u32>)
    requires
        columns >= 2,
        rows >= 2,
        columns * rows <= 0x1_0000_0000,
    ensures
        indices@ == grid_indices_spec(columns as int, rows as int),
        indices@.len() == (columns - 1) * (rows - 1) * 6,
{
    let mut indices: Vec<u32> = Vec::new();
    let mut x: u32 = 0;
    while x < columns - 1
        invariant
            columns >= 2,
            rows >= 2,
            columns * rows <= 0x1_0000_0000,
            x <= columns - 1,
            indices@.len() == x * (rows - 1) * 6,
            forall|n: int| 0 <= n < indices@.len() ==> indices@[n] == grid_index(rows as int, n),
        decreases columns - 1 - x,
    {
        let mut y: u32 = 0;
        while y < rows - 1
            invariant
                columns >= 2,
                rows >= 2,
                columns * rows <= 0x1_0000_0000,
                x < columns - 1,
                y <= rows - 1,
                indices@.len() == (x * (rows - 1) + y) * 6,
                forall|n: int| 0 <= n < indices@.len() ==> indices@[n] == grid_index(rows as int, n),
            decreases rows - 1 - y,
        {
            proof {
                lemma_vertex_index_bound(columns as int, rows as int, x as int, y as int);
                lemma_vertex_index_bound(columns as int, rows as int, x + 1, y + 1);
                assert(vertex_index(rows as int, x + 1, y + 1) == vertex_index(
                    rows as int,
                    x as int,
                    y as int,
                ) + rows + 1) by (nonlinear_arith);
                lemma_fundamental_div_mod_converse(
                    x * (rows - 1) + y,
                    rows - 1,
                    x as int,
                    y as int,
                );
            }
            let ghost base = indices@.len() as int;
            let bl: u32 = x * rows + y;
            let tl: u32 = bl + 1;
            let br: u32 = bl + rows;
            let tr: u32 = br + 1;
            indices.push(bl);
            indices.push(br);
            indices.push(tr);
            indices.push(bl);
            indices.push(tr);
            indices.push(tl);
            proof {
                assert(base == (x * (rows - 1) + y) * 6);
                assert forall|n: int| base <= n < base + 6 implies indices@[n] == grid_index(
                    rows as int,
                    n,
                ) by {
                    assert(n / 6 == x * (rows - 1) + y);
                }
            }
            y += 1;
        }
        proof {
            assert((x * (rows - 1) + (rows - 1)) * 6 == (x + 1) * (rows - 1) * 6)
                by (nonlinear_arith);
        }
        x += 1;
    }
    proof {
        assert(indices@.len() == (columns - 1) * (rows - 1) * 6);
        assert(indices@ =~= grid_indices_spec(columns as int, rows as int));
    }
    indices
}

/// A texture coordinate pair in fixed point: `ONE` is the far edge.
#[derive(Clone, Copy, Debug, PartialEq, Eq, Structural)]
pub struct Uv {
    pub u: i32,
    pub v: i32,
}

/// A triangle list: three entries of `indices` for each triangle, each
/// naming a vertex by its place in `positions`, `normals` and `uvs`.
#[derive(Clone, Debug)]
pub struct Mesh {
    pub positions: Vec<Vector>,
    pub normals: Vec<Normal>,
    pub uvs: Vec<Uv>,
    pub indices: Vec<u32>,
}

/// No element is larger than one after it.
pub open spec fn non_decreasing(s: Seq<i32>) -> bool {
    forall|i: int, j: int| 0 <= i <= j < s.len() ==> s[i] <= s[j]
}

impl Mesh {
    /// Every vertex has a normal and a texture coordinate, and the index
    /// buffer lists whole triangles over existing vertices.
    pub open spec fn well_formed(&self) -> bool {
        &&& self.normals@.len() == self.positions@.len()
        &&& self.uvs@.len() == self.positions@.len()
        &&& self.indices@.len() % 3 == 0
        &&& forall|n: int|
            0 <= n < self.indices@.len() ==> (#[trigger] self.indices@[n]) < self.positions@.len()
    }

    /// The number of triangles.
    pub open spec fn triangles(&self) -> int {
        self.indices@.len() as int / 3
    }

    /// The position of corner `c` (0, 1 or 2) of triangle `t`.
    pub open spec fn corner(&self, t: int, c: int) -> Vector {
        self.positions@[self.indices@[3 * t + c] as int]
    }

    /// Twice the area of triangle `t` as seen from above: positive where
    /// its corners run counter-clockwise, negative where they run clockwise.
    pub open spec fn signed_area(&self, t: int) -> int {
        let a = self.corner(t, 0);
        let b = self.corner(t, 1);
        let c = self.corner(t, 2);
        (b.x - a.x) * (c.y - a.y) - (b.y - a.y) * (c.x - a.x)
    }

    /// Every triangle runs counter-clockwise as seen from above.
    pub open spec fn counter_clockwise(&self) -> bool {
        forall|t: int| 0 <= t < self.triangles() ==> #[trigger] self.signed_area(t) > 0
    }

    /// No triangle runs clockwise as seen from above.
    pub open spec fn never_clockwise(&self) -> bool {
        forall|t: int| 0 <= t < self.triangles() ==> #[trigger] self.signed_area(t) >= 0
    }

    /// The vertices stand on the crossings of the grid lines `xs` and `ys`,
    /// and the index buffer is that of the grid.
    pub open spec fn spans_grid(&self, xs: Seq<i32>, ys: Seq<i32>) -> bool {
        &&& xs.len() >= 2
        &&& ys.len() >= 2
        &&& xs.len() * ys.len() <= 0x1_0000_0000
        &&& self.positions@.len() == xs.len() * ys.len()
        &&& self.indices@ == grid_indices_spec(xs.len() as int, ys.len() as int)
        &&& forall|k: int|
            0 <= k < self.positions@.len() ==> (#[trigger] self.positions@[k]).x == xs[k / (
            ys.len() as int)] && self.positions@[k].y == ys[k % (ys.len() as int)]
    }

    /// The mesh is that of the grid over the lines `xs` and `ys`, with a
    /// normal and linear texture coordinates at each vertex.
    pub open spec fn is_grid(&self, xs: Seq<i32>, ys: Seq<i32>, flip_v: bool) -> bool {
        &&& self.spans_grid(xs, ys)
        &&& self.normals@.len() == self.positions@.len()
        &&& self.uvs@.len() == self.positions@.len()
        &&& forall|k: int|
            0 <= k < self.uvs@.len() ==> (#[trigger] self.uvs@[k]) == grid_uv(
                xs.len() as int,
                ys.len() as int,
                k / (ys.len() as int),
                k % (ys.len() as int),
                flip_v,
            )
    }

    /// In a grid mesh, both triangles of the cell `(x, y)` have the signed
    /// area of the cell itself, and each index names a vertex of the grid.
    pub proof fn lemma_grid_triangle(&self, xs: Seq<i32>, ys: Seq<i32>, t: int)
        requires
            self.spans_grid(xs, ys),
            0 <= t < self.triangles(),
        ensures
            ({
                let x = (t / 2) / (ys.len() - 1);
                let y = (t / 2) % (ys.len() - 1);
                &&& 0 <= x < xs.len() - 1
                &&& 0 <= y < ys.len() - 1
                &&& self.signed_area(t) == (xs[x + 1] - xs[x]) * (ys[y + 1] - ys[y])
                &&& self.indices@[3 * t] < self.positions@.len()
                &&& self.indices@[3 * t + 1] < self.positions@.len()
                &&& self.indices@[3 * t + 2] < self.positions@.len()
            }),
    {
        let columns = xs.len() as int;
        let rows = ys.len() as int;
        let cell = t / 2;
        let x = cell / (rows - 1);
        let y = cell % (rows - 1);
        assert(self.indices@.len() == (columns - 1) * (rows - 1) * 6);
        assert(0 <= cell < (columns - 1) * (rows - 1));
        assert(0 <= x < columns - 1 && 0 <= y < rows - 1) by (nonlinear_arith)
            requires
                0 <= cell < (columns - 1) * (rows - 1),
                rows - 1 > 0,
                x == cell / (rows - 1),
                y == cell % (rows - 1),
        ;
        let bl = vertex_index(rows, x, y);
        let br = vertex_index(rows, x + 1, y);
        let tr = vertex_index(rows, x + 1, y + 1);
        let tl = vertex_index(rows, x, y + 1);
        assert(br == bl + rows && tr == bl + rows + 1 && tl == bl + 1) by (nonlinear_arith)
            requires
                bl == x * rows + y,
                br == (x + 1) * rows + y,
                tr == (x + 1) * rows + (y + 1),
                tl == x * rows + (y + 1),
        ;
        lemma_vertex_index_split(rows, x, y);
        lemma_vertex_index_split(rows, x + 1, y);
        lemma_vertex_index_split(rows, x + 1, y + 1);
        lemma_vertex_index_split(rows, x, y + 1);
        lemma_vertex_index_bound(columns, rows, x, y);
        lemma_vertex_index_bound(columns, rows, x + 1, y);
        lemma_vertex_index_bound(columns, rows, x + 1, y + 1);
        lemma_vertex_index_bound(columns, rows, x, y + 1);
        assert((3 * t) / 6 == cell && (3 * t + 1) / 6 == cell && (3 * t + 2) / 6 == cell);
        let i0 = self.indices@[3 * t];
        let i1 = self.indices@[3 * t + 1];
        let i2 = self.indices@[3 * t + 2];
        assert(i0 == grid_index(rows, 3 * t) as u32);
        assert(i1 == grid_index(rows, 3 * t + 1) as u32);
        assert(i2 == grid_index(rows, 3 * t + 2) as u32);
        let dx = xs[x + 1] - xs[x];
        let dy = ys[y + 1] - ys[y];
        if t % 2 == 0 {
            assert((3 * t) % 6 == 0 && (3 * t + 1) % 6 == 1 && (3 * t + 2) % 6 == 2);
            assert(i0 == bl && i1 == br && i2 == tr);
            assert(self.positions@[bl].x == xs[x] && self.positions@[bl].y == ys[y]);
            assert(self.positions@[br].x == xs[x + 1] && self.positions@[br].y == ys[y]);
            assert(self.positions@[tr].x == xs[x + 1] && self.positions@[tr].y == ys[y + 1]);
            assert(self.signed_area(t) == dx * dy - 0 * dx);
        } else {
            assert((3 * t) % 6 == 3 && (3 * t + 1) % 6 == 4 && (3 * t + 2) % 6 == 5);
            assert(i0 == bl && i1 == tr && i2 == tl);
            assert(self.positions@[bl].x == xs[x] && self.positions@[bl].y == ys[y]);
            assert(self.positions@[tr].x == xs[x + 1] && self.positions@[tr].y == ys[y + 1]);
            assert(self.positions@[tl].x == xs[x] && self.positions@[tl].y == ys[y + 1]);
            assert(self.signed_area(t) == dx * dy - dy * 0);
        }
    }

    /// A grid mesh over strictly increasing grid lines winds every triangle
    /// counter-clockwise as seen from above.
    pub proof fn lemma_grid_counter_clockwise(&self, xs: Seq<i32>, ys: Seq<i32>)
        requires
            self.spans_grid(xs, ys),
            crate::perlin::strictly_increasing(xs),
            crate::perlin::strictly_increasing(ys),
        ensures
            self.counter_clockwise(),
    {
        assert forall|t: int| 0 <= t < self.triangles() implies #[trigger] self.signed_area(t)
            > 0 by {
            self.lemma_grid_triangle(xs, ys, t);
            let x = (t / 2) / (ys.len() - 1);
            let y = (t / 2) % (ys.len() - 1);
            assert((xs[x + 1] - xs[x]) * (ys[y + 1] - ys[y]) > 0) by (nonlinear_arith)
                requires
                    xs[x + 1] - xs[x] > 0,
                    ys[y + 1] - ys[y] > 0,
            ;
        }
    }

    /// A grid mesh over grid lines that never step back winds no triangle
    /// clockwise as seen from above.
    pub proof fn lemma_grid_never_clockwise(&self, xs: Seq<i32>, ys: Seq<i32>)
        requires
            self.spans_grid(xs, ys),
            non_decreasing(xs),
            non_decreasing(ys),
        ensures
            self.never_clockwise(),
    {
        assert forall|t: int| 0 <= t < self.triangles() implies #[trigger] self.signed_area(t)
            >= 0 by {
            self.lemma_grid_triangle(xs, ys, t);
            let x = (t / 2) / (ys.len() - 1);
            let y = (t / 2) % (ys.len() - 1);
            assert((xs[x + 1] - xs[x]) * (ys[y + 1] - ys[y]) >= 0) by (nonlinear_arith)
                requires
                    xs[x + 1] - xs[x] >= 0,
                    ys[y + 1] - ys[y] >= 0,
            ;
        }
    }
}

/// The texture coordinate of grid line `i` out of `count`, which runs
/// linearly from 0 at the first line to `ONE` at the last.
pub open spec fn texture_coordinate(i: int, count: int) -> int {
    (65536 * i) / (count - 1)
}

/// The texture coordinates of the vertex at grid position `(i, j)`. Where
/// `flip_v` is set, `v` runs from `ONE` down to 0.
pub open spec fn grid_uv(columns: int, rows: int, i: int, j: int, flip_v: bool) -> Uv {
    Uv {
        u: texture_coordinate(i, columns) as i32,
        v: if flip_v {
            (65536 - texture_coordinate(j, rows)) as i32
        } else {
            texture_coordinate(j, rows) as i32
        },
    }
}

/// The texture coordinate of grid line `i` out of `count`.
pub fn texture_coordinate_of(i: usize, count: usize) -> (c: i32)
    requires
        count >= 2,
        i < count,
        count <= 0x1_0000_0000,
    ensures
        c == texture_coordinate(i as int, count as int),
        0 <= c <= 65536,
{
    let n: u64 = 65536u64 * (i as u64);
    let d: u64 = (count - 1) as u64;
    proof {
        crate::arith::lemma_floor_between(n as int, d as int, 0, 65536);
    }
    (n / d) as i32
}

/// Neither side of a grid whose vertices can be numbered in 32 bits has
/// more than 2^31 lines.
pub proof fn lemma_grid_sides(columns: int, rows: int)
    by (nonlinear_arith)
    requires
        columns >= 2,
        rows >= 2,
        columns * rows <= 0x1_0000_0000,
    ensures
        columns <= 0x8000_0000,
        rows <= 0x8000_0000,
{
}

/// `table` has `columns` rows of `rows` entries each.
pub open spec fn is_table<T>(table: Seq<Vec<T>>, columns: int, rows: int) -> bool {
    &&& table.len() == columns
    &&& forall|i: int| 0 <= i < table.len() ==> (#[trigger] table[i])@.len() == rows
}

/// Builds the mesh of a grid: the vertex at grid position `(i, j)` stands at
/// `(xs[i], ys[j], heights[i][j])` and has the normal `normals[i][j]`.
pub fn assemble(
    xs: &Vec<i32>,
    ys: &Vec<i32>,
    heights: &Vec<Vec<i32>>,
    normals: &Vec<Vec<Normal>>,
    flip_v: bool,
) -> (mesh: Mesh)
    requires
        xs@.len() >= 2,
        ys@.len() >= 2,
        xs@.len() * ys@.len() <= 0x1_0000_0000,
        is_table(heights@, xs@.len() as int, ys@.len() as int),
        is_table(normals@, xs@.len() as int, ys@.len() as int),
    ensures
        mesh.well_formed(),
        mesh.spans_grid(xs@, ys@),
        mesh.is_grid(xs@, ys@, flip_v),
        forall|k: int|
            #![trigger mesh.positions@[k]]
            #![trigger mesh.normals@[k]]
            #![trigger mesh.uvs@[k]]
            0 <= k < mesh.positions@.len() ==> {
                let i = k / (ys@.len() as int);
                let j = k % (ys@.len() as int);
                &&& mesh.positions@[k] == (Vector { x: xs@[i], y: ys@[j], z: heights@[i]@[j] })
                &&& mesh.normals@[k] == normals@[i]@[j]
                &&& mesh.uvs@[k] == grid_uv(xs@.len() as int, ys@.len() as int, i, j, flip_v)
            },
{
    let columns: usize = xs.len();
    let rows: usize = ys.len();
    proof {
        lemma_grid_sides(columns as int, rows as int);
    }
    let mut positions: Vec<Vector> = Vec::new();
    let mut vertex_normals: Vec<Normal> = Vec::new();
    let mut uvs: Vec<Uv> = Vec::new();
    let mut i: usize = 0;
    while i < columns
        invariant
            columns == xs@.len(),
            rows == ys@.len(),
            columns >= 2,
            rows >= 2,
            columns * rows <= 0x1_0000_0000,
            columns <= 0x8000_0000,
            rows <= 0x8000_0000,
            is_table(heights@, columns as int, rows as int),
            is_table(normals@, columns as int, rows as int),
            i <= columns,
            positions@.len() == i * rows,
            vertex_normals@.len() == positions@.len(),
            uvs@.len() == positions@.len(),
            forall|k: int|
                #![trigger positions@[k]]
                #![trigger vertex_normals@[k]]
                #![trigger uvs@[k]]
                0 <= k < positions@.len() ==> {
                    let a = k / (rows as int);
                    let b = k % (rows as int);
                    &&& positions@[k] == (Vector { x: xs@[a], y: ys@[b], z: heights@[a]@[b] })
                    &&& vertex_normals@[k] == normals@[a]@[b]
                    &&& uvs@[k] == grid_uv(columns as int, rows as int, a, b, flip_v)
                },
        decreases columns - i,
    {
        let u: i32 = texture_coordinate_of(i, columns);
        let mut j: usize = 0;
        while j < rows
            invariant
                columns == xs@.len(),
                rows == ys@.len(),
                columns >= 2,
                rows >= 2,
                columns * rows <= 0x1_0000_0000,
                columns <= 0x8000_0000,
                rows <= 0x8000_0000,
                is_table(heights@, columns as int, rows as int),
                is_table(normals@, columns as int, rows as int),
                i < columns,
                j <= rows,
                u == texture_coordinate(i as int, columns as int),
                positions@.len() == i * rows + j,
                vertex_normals@.len() == positions@.len(),
                uvs@.len() == positions@.len(),
                forall|k: int|
                    #![trigger positions@[k]]
                    #![trigger vertex_normals@[k]]
                    #![trigger uvs@[k]]
                    0 <= k < positions@.len() ==> {
                        let a = k / (rows as int);
                        let b = k % (rows as int);
                        &&& positions@[k] == (Vector { x: xs@[a], y: ys@[b], z: heights@[a]@[b] })
                        &&& vertex_normals@[k] == normals@[a]@[b]
                        &&& uvs@[k] == grid_uv(columns as int, rows as int, a, b, flip_v)
                    },
            decreases rows - j,
        {
            proof {
                lemma_vertex_index_split(rows as int, i as int, j as int);
            }
            let t: i32 = texture_coordinate_of(j, rows);
            let v: i32 = if flip_v {
                65536 - t
            } else {
                t
            };
            positions.push(Vector { x: xs[i], y: ys[j], z: heights[i][j] });
            vertex_normals.push(normals[i][j]);
            uvs.push(Uv { u, v });
            j += 1;
        }
        proof {
            assert(i * rows + rows == (i + 1) * rows) by (nonlinear_arith);
        }
        i += 1;
    }
    let indices = grid_indices(columns as u32, rows as u32);
    let mesh = Mesh { positions, normals: vertex_normals, uvs, indices };
    proof {
        assert(mesh.spans_grid(xs@, ys@));
        assert(mesh.indices@.len() == ((columns - 1) * (rows - 1) * 2) * 3) by (nonlinear_arith)
            requires
                mesh.indices@.len() == (columns - 1) * (rows - 1) * 6,
        ;
        assert forall|n: int| 0 <= n < mesh.indices@.len() implies (#[trigger] mesh.indices@[n])
            < mesh.positions@.len() by {
            mesh.lemma_grid_triangle(xs@, ys@, n / 3);
        }
    }
    mesh
}

/// The largest subdivision count whose vertices can be numbered in 32 bits.
pub const MAX_SUBDIVISIONS: u32 = 65534;

/// Grid line `i` of a side of length `size` cut into `subdivisions + 1`
/// equal steps, rounded down to a fixed-point value.
pub open spec fn grid_line(size: int, subdivisions: int, i: int) -> int {
    (i * size) / (subdivisions + 1)
}

/// The `subdivisions + 2` grid lines of a side of length `size`.
pub open spec fn grid_lines_spec(size: i32, subdivisions: u32) -> Seq<i32> {
    Seq::new((subdivisions + 2) as nat, |i: int| grid_line(size as int, subdivisions as int, i) as i32)
}

/// The grid lines of a side that is not negative run from 0 to `size`
/// without stepping back.
pub proof fn lemma_grid_lines_ordered(size: i32, subdivisions: u32)
    requires
        size >= 0,
    ensures
        non_decreasing(grid_lines_spec(size, subdivisions)),
        grid_lines_spec(size, subdivisions)[0] == 0,
        grid_lines_spec(size, subdivisions)[subdivisions + 1] == size,
        forall|i: int|
            0 <= i < subdivisions + 2 ==> 0 <= #[trigger] grid_line(
                size as int,
                subdivisions as int,
                i,
            ) <= size,
{
    let d = subdivisions as int + 1;
    let lines = grid_lines_spec(size, subdivisions);
    assert forall|i: int| 0 <= i < subdivisions + 2 implies 0 <= #[trigger] grid_line(
        size as int,
        subdivisions as int,
        i,
    ) <= size by {
        assert(0 * d <= i * size <= size * d) by (nonlinear_arith)
            requires
                0 <= i <= d,
                size >= 0,
        ;
        crate::arith::lemma_floor_between(i * size, d, 0, size as int);
    }
    assert forall|i: int, j: int| 0 <= i <= j < lines.len() implies lines[i] <= lines[j] by {
        assert(i * size <= j * size) by (nonlinear_arith)
            requires
                0 <= i <= j,
                size >= 0,
        ;
        vstd::arithmetic::div_mod::lemma_div_is_ordered(i * size, j * size, d);
        assert(lines[i] == grid_line(size as int, subdivisions as int, i));
        assert(lines[j] == grid_line(size as int, subdivisions as int, j));
    }
    assert(0 * size == 0);
    assert(d * size == size * d) by (nonlinear_arith);
    crate::arith::lemma_div_exact(size as int, d);
    assert(grid_line(size as int, subdivisions as int, 0) == 0);
    assert(grid_line(size as int, subdivisions as int, d) == size);
}

/// Where the side is at least as long as it has steps, no two grid lines
/// coincide.
pub proof fn lemma_grid_lines_distinct(size: i32, subdivisions: u32)
    requires
        size >= subdivisions + 1,
    ensures
        crate::perlin::strictly_increasing(grid_lines_spec(size, subdivisions)),
{
    let d = subdivisions as int + 1;
    let lines = grid_lines_spec(size, subdivisions);
    lemma_grid_lines_ordered(size, subdivisions);
    assert forall|i: int, j: int| 0 <= i < j < lines.len() implies lines[i] < lines[j] by {
        // (i + 1) * size >= i * size + d, so the quotient grows by at least one
        let a = i * size;
        assert((i + 1) * size >= a + d) by (nonlinear_arith)
            requires
                a == i * size,
                size >= d,
        ;
        assert(a + d == 1 * d + a);
        vstd::arithmetic::div_mod::lemma_div_plus_one(a, d);
        vstd::arithmetic::div_mod::lemma_div_is_ordered(a + d, (i + 1) * size, d);
        assert(grid_line(size as int, subdivisions as int, i) < grid_line(
            size as int,
            subdivisions as int,
            i + 1,
        ));
        assert(lines[i + 1] == grid_line(size as int, subdivisions as int, i + 1));
        assert(lines[i] == grid_line(size as int, subdivisions as int, i));
        assert(lines[i + 1] <= lines[j]);
    }
}

/// The grid lines of a side of length `size` cut into `subdivisions + 1`
/// steps.
pub fn grid_lines(size: i32, subdivisions: u32) -> (lines: Vec<i32>)
    requires
        size >= 0,
        subdivisions <= MAX_SUBDIVISIONS,
    ensures
        lines@ == grid_lines_spec(size, subdivisions),
        lines@.len() == subdivisions + 2,
{
    let count: u32 = subdivisions + 2;
    let mut lines: Vec<i32> = Vec::new();
    let mut i: u32 = 0;
    proof {
        lemma_grid_lines_ordered(size, subdivisions);
    }
    while i < count
        invariant
            size >= 0,
            count == subdivisions + 2,
            subdivisions <= MAX_SUBDIVISIONS,
            i <= count,
            lines@.len() == i,
            forall|k: int|
                0 <= k < i ==> lines@[k] == grid_line(size as int, subdivisions as int, k),
            forall|k: int|
                0 <= k < subdivisions + 2 ==> 0 <= #[trigger] grid_line(
                    size as int,
                    subdivisions as int,
                    k,
                ) <= size,
        decreases count - i,
    {
        proof {
            crate::arith::lemma_mul_bounds(i as int, size as int, 0x1_0000, 0x8000_0000);
            assert(0 <= i * size) by (nonlinear_arith)
                requires
                    0 <= i,
                    0 <= size,
            ;
            assert(0 <= grid_line(size as int, subdivisions as int, i as int) <= size);
        }
        let n: u64 = (i as u64) * (size as u64);
        let d: u64 = (subdivisions as u64) + 1;
        lines.push((n / d) as i32);
        i += 1;
    }
    proof {
        assert(lines@ =~= grid_lines_spec(size, subdivisions));
    }
    lines
}

/// A table of `columns` rows of `rows` entries, all of them `value`.
pub fn uniform_table<T: Copy>(columns: usize, rows: usize, value: T) -> (table: Vec<Vec<T>>)
    ensures
        is_table(table@, columns as int, rows as int),
        forall|i: int, j: int|
            0 <= i < columns && 0 <= j < rows ==> (#[trigger] table@[i]@[j]) == value,
{
    let mut table: Vec<Vec<T>> = Vec::new();
    let mut i: usize = 0;
    while i < columns
        invariant
            i <= columns,
            table@.len() == i,
            forall|a: int| 0 <= a < i ==> (#[trigger] table@[a])@.len() == rows,
            forall|a: int, b: int| 0 <= a < i && 0 <= b < rows ==> (#[trigger] table@[a]@[b]) == value,
        decreases columns - i,
    {
        let mut row: Vec<T> = Vec::new();
        let mut j: usize = 0;
        while j < rows
            invariant
                j <= rows,
                row@.len() == j,
                forall|b: int| 0 <= b < j ==> row@[b] == value,
            decreases rows - j,
        {
            row.push(value);
            j += 1;
        }
        table.push(row);
        i += 1;
    }
    table
}

/// The mesh of a level rectangle at the height `height`: a grid of
/// `(subdivisions + 2)` by `(subdivisions + 2)` vertices with normals
/// pointing up.
pub fn level_mesh(size_x: i32, size_y: i32, subdivisions: u32, height: i32) -> (mesh: Mesh)
    requires
        size_x > 0,
        size_y > 0,
        subdivisions <= MAX_SUBDIVISIONS,
    ensures
        mesh.well_formed(),
        mesh.is_grid(
            grid_lines_spec(size_x, subdivisions),
            grid_lines_spec(size_y, subdivisions),
            true,
        ),
        mesh.positions@.len() == (subdivisions + 2) * (subdivisions + 2),
        mesh.indices@.len() == (subdivisions + 1) * (subdivisions + 1) * 6,
        mesh.never_clockwise(),
        size_x > subdivisions && size_y > subdivisions ==> mesh.counter_clockwise(),
        forall|k: int|
            0 <= k < mesh.positions@.len() ==> (#[trigger] mesh.positions@[k]).z == height,
        forall|k: int|
            0 <= k < mesh.normals@.len() ==> (#[trigger] mesh.normals@[k]) == Normal::up(),
{
    let count: usize = (subdivisions + 2) as usize;
    let xs = grid_lines(size_x, subdivisions);
    let ys = grid_lines(size_y, subdivisions);
    let heights = uniform_table(count, count, height);
    let normals = uniform_table(count, count, Normal::up());
    proof {
        assert(count * count <= 0x1_0000_0000) by (nonlinear_arith)
            requires
                count <= 65536,
        ;
    }
    let mesh = assemble(&xs, &ys, &heights, &normals, true);
    proof {
        lemma_grid_lines_ordered(size_x, subdivisions);
        lemma_grid_lines_ordered(size_y, subdivisions);
        mesh.lemma_grid_never_clockwise(xs@, ys@);
        if size_x > subdivisions && size_y > subdivisions {
            lemma_grid_lines_distinct(size_x, subdivisions);
            lemma_grid_lines_distinct(size_y, subdivisions);
            mesh.lemma_grid_counter_clockwise(xs@, ys@);
        }
        assert(mesh.indices@.len() == (count - 1) * (count - 1) * 6);
        assert forall|k: int| 0 <= k < mesh.positions@.len() implies (
        #[trigger] mesh.positions@[k]).z == height && mesh.normals@[k] == Normal::up() by {
            lemma_vertex_position(count as int, count as int, k);
        }
    }
    mesh
}

} // verus!
