//! Ready-made terrains: grids of tiles laid edge to edge. A grid holds
//! rows of tiles and no positions: the row and the place in it, together
//! with the size of the tiles, say where a tile lies.
use vstd::prelude::*;
use noise::utils::{NoiseMapBuilder, PlaneMapBuilder};
use crate::double::{lemma_scale_within_two, scale, scale_spec, within_two};
use crate::function::{total_bound, Axis, Function, Term};
use crate::mesh::{
    grid_lines, grid_lines_spec, lemma_grid_lines_distinct, lemma_grid_lines_ordered, Mesh,
};
use crate::perlin::{lemma_same_mesh, lemma_same_surface, same_tables, HeightMap, Perlin};
use crate::mirror::Mirror;
use crate::plane::Plane;
use crate::rotate::Rotate;
use crate::step::Step;
use crate::step_slope::StepSlope;
use crate::GridElement;

verus! {

/// Every tile of `grid` is well formed.
pub open spec fn all_well_formed(grid: Seq<Vec<GridElement>>) -> bool {
    forall|i: int, j: int|
        0 <= i < grid.len() && 0 <= j < grid[i]@.len() ==> (#[trigger] grid[i]@[j]).well_formed()
}

/// `grid` has `rows` rows of `columns` tiles each.
pub open spec fn has_shape(grid: Seq<Vec<GridElement>>, rows: int, columns: int) -> bool {
    &&& grid.len() == rows
    &&& forall|i: int| 0 <= i < grid.len() ==> (#[trigger] grid[i])@.len() == columns
}

/// The tile of `table_top` in the given row and column: a ramp at each end
/// of a row and raised ground between them, each laid in an orientation of
/// its own.
pub open spec fn table_top_tile(size: i32, height: i32, row: int, column: int) -> GridElement {
    if row == 0 && column == 0 {
        GridElement::StepSlope(
            StepSlope { size, height, mirror: Mirror::Neither, rotate: Rotate::Ninety },
        )
    } else if row == 0 && column == 1 {
        GridElement::Step(Step { size, height, mirror: Mirror::Neither, rotate: Rotate::Ninety })
    } else if row == 0 {
        GridElement::StepSlope(
            StepSlope { size, height, mirror: Mirror::YZ, rotate: Rotate::TwoSeventy },
        )
    } else if column == 0 {
        GridElement::StepSlope(StepSlope { size, height, mirror: Mirror::YZ, rotate: Rotate::Ninety })
    } else if column == 1 {
        GridElement::Step(
            Step { size, height, mirror: Mirror::Neither, rotate: Rotate::TwoSeventy },
        )
    } else {
        GridElement::StepSlope(
            StepSlope { size, height, mirror: Mirror::Neither, rotate: Rotate::TwoSeventy },
        )
    }
}

/// A raised table of two rows of three tiles: a ramp, raised ground and
/// another ramp in each row.
pub fn table_top(size: i32, height: i32) -> (grid: Vec<Vec<GridElement>>)
    ensures
        has_shape(grid@, 2, 3),
        forall|i: int, j: int|
            0 <= i < 2 && 0 <= j < 3 ==> (#[trigger] grid@[i]@[j]) == table_top_tile(
                size,
                height,
                i,
                j,
            ),
        size > 0 ==> all_well_formed(grid@),
{
    let mut first: Vec<GridElement> = Vec::new();
    first.push(
        GridElement::StepSlope(
            StepSlope { size, height, mirror: Mirror::Neither, rotate: Rotate::Ninety },
        ),
    );
    first.push(
        GridElement::Step(Step { size, height, mirror: Mirror::Neither, rotate: Rotate::Ninety }),
    );
    first.push(
        GridElement::StepSlope(
            StepSlope { size, height, mirror: Mirror::YZ, rotate: Rotate::TwoSeventy },
        ),
    );
    let mut second: Vec<GridElement> = Vec::new();
    second.push(
        GridElement::StepSlope(StepSlope { size, height, mirror: Mirror::YZ, rotate: Rotate::Ninety }),
    );
    second.push(
        GridElement::Step(
            Step { size, height, mirror: Mirror::Neither, rotate: Rotate::TwoSeventy },
        ),
    );
    second.push(
        GridElement::StepSlope(
            StepSlope { size, height, mirror: Mirror::Neither, rotate: Rotate::TwoSeventy },
        ),
    );
    let mut grid: Vec<Vec<GridElement>> = Vec::new();
    grid.push(first);
    grid.push(second);
    grid
}

/// The tile of `steps` at the given place of the row for the rise
/// `height`: raised ground, the same turned half way round, and a level
/// landing.
pub open spec fn steps_tile(size: i32, height: i32, column: int) -> GridElement {
    if column == 0 {
        GridElement::Step(Step { size, height, mirror: Mirror::Neither, rotate: Rotate::Zero })
    } else if column == 1 {
        GridElement::Step(
            Step { size, height, mirror: Mirror::Neither, rotate: Rotate::OneEighty },
        )
    } else {
        GridElement::Plane(Plane { size: [size, size], subdivisions: 1 })
    }
}

/// A staircase: one row for each of `heights`, which holds a step of that
/// height, its descent and a landing.
pub fn steps(size: i32, heights: Vec<i32>) -> (grid: Vec<Vec<GridElement>>)
    ensures
        has_shape(grid@, heights@.len() as int, 3),
        forall|i: int, j: int|
            0 <= i < heights@.len() && 0 <= j < 3 ==> (#[trigger] grid@[i]@[j]) == steps_tile(
                size,
                heights@[i],
                j,
            ),
        size > 0 ==> all_well_formed(grid@),
{
    let mut grid: Vec<Vec<GridElement>> = Vec::new();
    let mut k: usize = 0;
    while k < heights.len()
        invariant
            k <= heights@.len(),
            has_shape(grid@, k as int, 3),
            forall|i: int, j: int|
                0 <= i < k && 0 <= j < 3 ==> (#[trigger] grid@[i]@[j]) == steps_tile(
                    size,
                    heights@[i],
                    j,
                ),
            size > 0 ==> all_well_formed(grid@),
        decreases heights@.len() - k,
    {
        let height = heights[k];
        let mut row: Vec<GridElement> = Vec::new();
        row.push(
            GridElement::Step(Step { size, height, mirror: Mirror::Neither, rotate: Rotate::Zero }),
        );
        row.push(
            GridElement::Step(
                Step { size, height, mirror: Mirror::Neither, rotate: Rotate::OneEighty },
            ),
        );
        row.push(GridElement::Plane(Plane { size: [size, size], subdivisions: 1 }));
        grid.push(row);
        k += 1;
    }
    grid
}

/// The number of grid lines between the borders of each tile of `wave`.
pub const WAVE_SUBDIVISIONS: u32 = 8;

/// The terms of the tile of `wave` in the given row and column: the wave
/// itself, `height * cos(2 * pi * x / wave_length)`, then on the first and
/// the last column a ramp across x, then on the first and the last row a
/// ramp across y. The ramps rise by one world unit from the outer border of
/// the block inwards.
pub open spec fn wave_terms(height: i32, wave_length: i32, row: int, column: int) -> Seq<Term> {
    let base = seq![Term::Wave { amplitude: height, wave_length }];
    let across_x = if column == 0 {
        base.push(Term::Ramp { axis: Axis::X, from: 0, to: 65536 })
    } else if column == 2 {
        base.push(Term::Ramp { axis: Axis::X, from: 65536, to: 0 })
    } else {
        base
    };
    if row == 0 {
        across_x.push(Term::Ramp { axis: Axis::Y, from: 0, to: 65536 })
    } else if row == 2 {
        across_x.push(Term::Ramp { axis: Axis::Y, from: 65536, to: 0 })
    } else {
        across_x
    }
}

/// The tile of `wave` in the given row and column.
pub open spec fn is_wave_tile(
    tile: GridElement,
    size: i32,
    height: i32,
    wave_length: i32,
    row: int,
    column: int,
) -> bool {
    &&& tile matches GridElement::Function(f)
    &&& f.size[0] == size
    &&& f.size[1] == size
    &&& f.functions@ == wave_terms(height, wave_length, row, column)
    &&& f.subdivisions == WAVE_SUBDIVISIONS
    &&& !f.gradient_normal
}

/// The tiles of `wave` are well formed for these measures: the footprint
/// is not empty, the wave length is not zero, and the crest of the wave
/// with a unit ramp on each axis on top of it fits in 32 bits.
pub open spec fn wave_fits(size: i32, height: i32, wave_length: i32) -> bool {
    &&& size > 0
    &&& wave_length != 0
    &&& -0x7ffd_ffff <= height <= 0x7ffd_ffff
}

/// The bounds of the terms of a wave tile add up to no more than the
/// amplitude and two world units.
pub proof fn lemma_wave_terms_bound(height: i32, wave_length: i32, row: int, column: int)
    requires
        0 <= row < 3,
        0 <= column < 3,
    ensures
        total_bound(wave_terms(height, wave_length, row, column)) <= (if height < 0 {
            -height
        } else {
            height as int
        }) + 2 * 65536,
        wave_length != 0 ==> forall|k: int|
            0 <= k < wave_terms(height, wave_length, row, column).len() ==> (
            #[trigger] wave_terms(height, wave_length, row, column)[k]).well_formed(),
{
    let terms = wave_terms(height, wave_length, row, column);
    let base = seq![Term::Wave { amplitude: height, wave_length }];
    assert(base.drop_last() =~= Seq::<Term>::empty());
    assert(total_bound(base.drop_last()) == 0);
    assert(total_bound(base) == base.last().bound());
    let across_x = if column == 0 {
        base.push(Term::Ramp { axis: Axis::X, from: 0, to: 65536 })
    } else if column == 2 {
        base.push(Term::Ramp { axis: Axis::X, from: 65536, to: 0 })
    } else {
        base
    };
    if column != 1 {
        assert(across_x.drop_last() =~= base);
    }
    assert(total_bound(across_x) <= base.last().bound() + 65536);
    if row != 1 {
        assert(terms.drop_last() =~= across_x);
    }
    if wave_length != 0 {
        assert forall|k: int| 0 <= k < terms.len() implies (#[trigger] terms[k]).well_formed() by {
            if k > 0 {
                assert(terms[k] is Ramp);
            }
        }
    }
}

/// One tile of `wave`.
fn wave_tile(size: i32, height: i32, wave_length: i32, row: usize, column: usize) -> (tile:
    GridElement)
    requires
        row < 3,
        column < 3,
    ensures
        is_wave_tile(tile, size, height, wave_length, row as int, column as int),
        wave_fits(size, height, wave_length) ==> tile.well_formed(),
{
    let mut functions: Vec<Term> = Vec::new();
    functions.push(Term::Wave { amplitude: height, wave_length });
    if column == 0 {
        functions.push(Term::Ramp { axis: Axis::X, from: 0, to: 65536 });
    } else if column == 2 {
        functions.push(Term::Ramp { axis: Axis::X, from: 65536, to: 0 });
    }
    if row == 0 {
        functions.push(Term::Ramp { axis: Axis::Y, from: 0, to: 65536 });
    } else if row == 2 {
        functions.push(Term::Ramp { axis: Axis::Y, from: 65536, to: 0 });
    }
    proof {
        assert(functions@ =~= wave_terms(height, wave_length, row as int, column as int));
        lemma_wave_terms_bound(height, wave_length, row as int, column as int);
    }
    GridElement::Function(
        Function {
            size: [size, size],
            functions,
            subdivisions: WAVE_SUBDIVISIONS,
            gradient_normal: false,
        },
    )
}

/// A field of waves that run along x, three tiles by three. Every tile
/// holds the same wave of the given height and wave length, a cosine that
/// the caller of a query evaluates; the tiles on the rim of the block add
/// ramps that rise from the outer border inwards.
pub fn wave(size: i32, height: i32, wave_length: i32) -> (grid: Vec<Vec<GridElement>>)
    ensures
        has_shape(grid@, 3, 3),
        forall|i: int, j: int|
            0 <= i < 3 && 0 <= j < 3 ==> is_wave_tile(
                #[trigger] grid@[i]@[j],
                size,
                height,
                wave_length,
                i,
                j,
            ),
        wave_fits(size, height, wave_length) ==> all_well_formed(grid@),
{
    let mut grid: Vec<Vec<GridElement>> = Vec::new();
    let mut row: usize = 0;
    while row < 3
        invariant
            row <= 3,
            has_shape(grid@, row as int, 3),
            forall|i: int, j: int|
                0 <= i < row && 0 <= j < 3 ==> is_wave_tile(
                    #[trigger] grid@[i]@[j],
                    size,
                    height,
                    wave_length,
                    i,
                    j,
                ),
            wave_fits(size, height, wave_length) ==> all_well_formed(grid@),
        decreases 3 - row,
    {
        let mut tiles: Vec<GridElement> = Vec::new();
        let mut column: usize = 0;
        while column < 3
            invariant
                row < 3,
                column <= 3,
                tiles@.len() == column,
                forall|j: int|
                    0 <= j < column ==> is_wave_tile(
                        #[trigger] tiles@[j],
                        size,
                        height,
                        wave_length,
                        row as int,
                        j,
                    ),
                wave_fits(size, height, wave_length) ==> forall|j: int|
                    0 <= j < column ==> (#[trigger] tiles@[j]).well_formed(),
            decreases 3 - column,
        {
            tiles.push(wave_tile(size, height, wave_length, row, column));
            column += 1;
        }
        grid.push(tiles);
        row += 1;
    }
    grid
}

/// The largest subdivision count for which `perlin_plane` draws noise.
pub const MAX_NOISE_SUBDIVISIONS: u32 = 32764;

/// The largest seed from which `perlin_plane` draws noise.
pub const MAX_NOISE_SEED: u32 = 0xffff_fffa;

/// A noise value of one raises the ground by one part in this many of the
/// side of the tile.
pub const NOISE_HEIGHT_DIVISOR: i32 = 20;

/// Why a noise tile cannot be built.
#[derive(Clone, Copy, Debug, PartialEq, Eq, Structural)]
pub enum PerlinError {
    /// The subdivision count is above `MAX_NOISE_SUBDIVISIONS`.
    TooManySubdivisions,
    /// The side is shorter, in fixed-point steps, than the tile has steps
    /// between its sample lines, so that two lines would coincide.
    SizeTooSmall,
    /// The seed is above `MAX_NOISE_SEED`.
    SeedTooLarge,
    /// There is not one noise value for each sample.
    WrongSampleCount,
    /// A noise value is not a number, or the height that it gives does not
    /// fit in 32 bits.
    SampleOutOfRange,
}

/// The bit patterns of the values of fractal Perlin noise of the given
/// seed, sampled on a square of `side` by `side` points over the square
/// from -1 to 1 on both axes: the value at the point `(i, j)` is entry
/// `i + j * side`.
pub uninterp spec fn noise_plane(seed: u32, side: nat) -> Seq<u64>;

/// Calls `noise::Fbm::<noise::Perlin>::new` and the `build` of a
/// `noise::utils::PlaneMapBuilder` of the given size with its default
/// bounds, which are -1 and 1, and hands back the bit pattern of each value
/// of the map, in the order in which the map stores them.
///
/// The contract claims three things. The map has `side * side` values.
/// They depend on the seed and the side alone: the generator seeds its
/// tables from the seed and then computes in plain arithmetic; it raises
/// one half to the powers 0 to 5 with `powi`, whose precision the standard
/// library leaves open, but which any sequence of multiplications gives
/// exactly. And every value is a number between -2 and 2: the generator
/// clamps each of its six octaves to the range from -1 to 1, weights them
/// by the powers of one half, which add up to 63/32, and divides the sum by
/// 63/64.
///
/// The builder refuses a side of 32767 or more, and the generator adds up
/// to 5 to the seed.
#[verifier::external_body]
fn noise_plane_bits(seed: u32, side: usize) -> (bits: Vec<u64>)
    requires
        seed <= MAX_NOISE_SEED,
        side < 32767,
    ensures
        bits@ == noise_plane(seed, side as nat),
        bits@.len() == side * side,
        forall|k: int| 0 <= k < bits@.len() ==> within_two(#[trigger] bits@[k]),
{
    let fbm = noise::Fbm::<noise::Perlin>::new(seed);
    let map = PlaneMapBuilder::<_, 2>::new(&fbm).set_size(side, side).build();
    map.iter().map(|value| value.to_bits()).collect()
}

/// The height of a noise tile at the sample `(i, j)`: the noise value
/// there times a twentieth of the side of the tile, rounded down.
pub open spec fn noise_sample(bits: Seq<u64>, size: i32, side: int, i: int, j: int) -> Option<i32> {
    scale_spec(bits[i + j * side], size as int, NOISE_HEIGHT_DIVISOR as int)
}

/// What keeps the noise values `bits` from making a tile, if anything.
pub open spec fn noise_fault(size: i32, subdivisions: u32, bits: Seq<u64>) -> Option<PerlinError> {
    let side = subdivisions + 2;
    if subdivisions > MAX_NOISE_SUBDIVISIONS {
        Some(PerlinError::TooManySubdivisions)
    } else if size < side - 1 {
        Some(PerlinError::SizeTooSmall)
    } else if bits.len() != side * side {
        Some(PerlinError::WrongSampleCount)
    } else if exists|i: int, j: int|
        0 <= i < side && 0 <= j < side && noise_sample(bits, size, side, i, j) is None {
        Some(PerlinError::SampleOutOfRange)
    } else {
        None
    }
}

/// `tile` is the noise tile of the given size and density for the noise
/// values `bits`: its sample lines are the grid lines of the tile, the first
/// at 0 and the last at `size`, so that the height map covers the whole
/// tile.
pub open spec fn is_noise_tile(tile: Perlin, size: i32, subdivisions: u32, bits: Seq<u64>) -> bool {
    let side = subdivisions + 2;
    &&& tile.size[0] == size
    &&& tile.size[1] == size
    &&& tile.subdivisions == subdivisions
    &&& tile.heightmap.x@ == grid_lines_spec(size, subdivisions)
    &&& tile.heightmap.y@ == grid_lines_spec(size, subdivisions)
    &&& tile.heightmap.z@.len() == side
    &&& forall|i: int| 0 <= i < side ==> (#[trigger] tile.heightmap.z@[i])@.len() == side
    &&& forall|i: int, j: int|
        0 <= i < side && 0 <= j < side ==> noise_sample(bits, size, side, i, j) == Some(
            #[trigger] tile.heightmap.z@[i]@[j],
        )
}

/// Builds the noise tile of the given size and density from the bit
/// patterns of its noise values, of which entry `i + j * side` belongs to
/// the sample `(i, j)`.
pub fn perlin_from_noise(size: i32, subdivisions: u32, bits: &Vec<u64>) -> (r: Result<
    Perlin,
    PerlinError,
>)
    ensures
        match r {
            Ok(tile) => noise_fault(size, subdivisions, bits@) is None && is_noise_tile(
                tile,
                size,
                subdivisions,
                bits@,
            ) && tile.well_formed(),
            Err(e) => noise_fault(size, subdivisions, bits@) == Some(e),
        },
{
    if subdivisions > MAX_NOISE_SUBDIVISIONS {
        return Err(PerlinError::TooManySubdivisions);
    }
    let side: usize = subdivisions as usize + 2;
    if size < side as i32 - 1 {
        return Err(PerlinError::SizeTooSmall);
    }
    proof {
        assert(side * side <= 32766 * 32766) by (nonlinear_arith)
            requires
                0 <= side <= 32766,
        ;
    }
    if bits.len() != side * side {
        return Err(PerlinError::WrongSampleCount);
    }
    let x = grid_lines(size, subdivisions);
    let y = grid_lines(size, subdivisions);
    proof {
        lemma_grid_lines_distinct(size, subdivisions);
    }
    let mut z: Vec<Vec<i32>> = Vec::new();
    let mut i: usize = 0;
    while i < side
        invariant
            side == subdivisions + 2,
            side <= 32766,
            size >= side - 1,
            bits@.len() == side * side,
            i <= side,
            z@.len() == i,
            forall|a: int| 0 <= a < i ==> (#[trigger] z@[a])@.len() == side,
            forall|a: int, b: int|
                0 <= a < i && 0 <= b < side ==> noise_sample(bits@, size, side as int, a, b)
                    == Some(#[trigger] z@[a]@[b]),
        decreases side - i,
    {
        let mut row: Vec<i32> = Vec::new();
        let mut j: usize = 0;
        while j < side
            invariant
                side == subdivisions + 2,
                side <= 32766,
                size >= side - 1,
                bits@.len() == side * side,
                i < side,
                j <= side,
                row@.len() == j,
                forall|b: int|
                    0 <= b < j ==> noise_sample(bits@, size, side as int, i as int, b) == Some(
                        #[trigger] row@[b],
                    ),
            decreases side - j,
        {
            proof {
                assert(0 <= j * side && i + j * side < side * side && side * side <= 32766
                    * 32766) by (nonlinear_arith)
                    requires
                        0 <= i < side,
                        0 <= j < side,
                        side <= 32766,
                ;
            }
            match scale(bits[i + j * side], size, NOISE_HEIGHT_DIVISOR) {
                Some(h) => {
                    row.push(h);
                },
                None => {
                    assert(noise_sample(bits@, size, side as int, i as int, j as int) is None);
                    return Err(PerlinError::SampleOutOfRange);
                },
            }
            j += 1;
        }
        z.push(row);
        i += 1;
    }
    let tile = Perlin { size: [size, size], subdivisions, heightmap: HeightMap { x, y, z } };
    proof {
        assert(is_noise_tile(tile, size, subdivisions, bits@));
        assert forall|a: int, b: int| 0 <= a < side && 0 <= b < side implies noise_sample(
            bits@,
            size,
            side as int,
            a,
            b,
        ) is Some by {
            assert(noise_sample(bits@, size, side as int, a, b) == Some(tile.heightmap.z@[a]@[b]));
        }
        assert(crate::perlin::rows_of_len(tile.heightmap.z@, side as int));
        assert(tile.heightmap.well_formed());
    }
    Ok(tile)
}

/// What keeps `perlin_plane` from making its tile, if anything.
pub open spec fn perlin_plane_fault(size: i32, subdivisions: u32, seed: u32) -> Option<
    PerlinError,
> {
    if subdivisions > MAX_NOISE_SUBDIVISIONS {
        Some(PerlinError::TooManySubdivisions)
    } else if size < subdivisions + 1 {
        Some(PerlinError::SizeTooSmall)
    } else if seed > MAX_NOISE_SEED {
        Some(PerlinError::SeedTooLarge)
    } else {
        noise_fault(size, subdivisions, noise_plane(seed, (subdivisions + 2) as nat))
    }
}

/// A terrain of one tile whose heights are drawn from fractal Perlin noise
/// of the given seed: `subdivisions + 2` samples on each axis, from one
/// border of the tile to the other, each raised by the noise value there
/// times a twentieth of `size`. It fails only on a subdivision count, a
/// size or a seed that it cannot take.
pub fn perlin_plane(size: i32, subdivisions: u32, seed: u32) -> (r: Result<
    Vec<Vec<GridElement>>,
    PerlinError,
>)
    ensures
        match r {
            Ok(grid) => {
                &&& perlin_plane_fault(size, subdivisions, seed) is None
                &&& has_shape(grid@, 1, 1)
                &&& grid@[0]@[0] matches GridElement::Perlin(tile)
                &&& is_noise_tile(
                    tile,
                    size,
                    subdivisions,
                    noise_plane(seed, (subdivisions + 2) as nat),
                )
                &&& all_well_formed(grid@)
            },
            Err(e) => perlin_plane_fault(size, subdivisions, seed) == Some(e),
        },
        r is Ok <==> subdivisions <= MAX_NOISE_SUBDIVISIONS && size >= subdivisions + 1 && seed
            <= MAX_NOISE_SEED,
        r matches Err(e) ==> e == PerlinError::TooManySubdivisions || e
            == PerlinError::SizeTooSmall || e == PerlinError::SeedTooLarge,
{
    if subdivisions > MAX_NOISE_SUBDIVISIONS {
        return Err(PerlinError::TooManySubdivisions);
    }
    if size < subdivisions as i32 + 1 {
        return Err(PerlinError::SizeTooSmall);
    }
    if seed > MAX_NOISE_SEED {
        return Err(PerlinError::SeedTooLarge);
    }
    let bits = noise_plane_bits(seed, subdivisions as usize + 2);
    proof {
        let side = subdivisions + 2;
        assert forall|i: int, j: int| 0 <= i < side && 0 <= j < side implies noise_sample(
            bits@,
            size,
            side,
            i,
            j,
        ) is Some by {
            assert(0 <= i + j * side < side * side) by (nonlinear_arith)
                requires
                    0 <= i < side,
                    0 <= j < side,
            ;
            lemma_scale_within_two(bits@[i + j * side], size, NOISE_HEIGHT_DIVISOR);
        }
        assert(noise_fault(size, subdivisions, bits@) is None);
    }
    match perlin_from_noise(size, subdivisions, &bits) {
        Ok(tile) => {
            let mut row: Vec<GridElement> = Vec::new();
            row.push(GridElement::Perlin(tile));
            let mut grid: Vec<Vec<GridElement>> = Vec::new();
            grid.push(row);
            Ok(grid)
        },
        Err(e) => Err(e),
    }
}

/// A noise tile has ground over its whole footprint: its height map covers
/// every point between the borders of the tile.
pub proof fn lemma_noise_tile_covers(
    tile: Perlin,
    size: i32,
    subdivisions: u32,
    bits: Seq<u64>,
    x: int,
    y: int,
)
    requires
        is_noise_tile(tile, size, subdivisions, bits),
        0 <= x <= size,
        0 <= y <= size,
    ensures
        tile.heightmap.covers(x, y),
        tile.surface(x, y) is Some,
{
    lemma_grid_lines_ordered(size, subdivisions);
}

/// Noise tiles are determined by their size, their density and their seed:
/// two of them hold the same height tables, have the same surface, and
/// have the same mesh.
pub proof fn lemma_noise_tile_determined(
    a: Perlin,
    b: Perlin,
    mesh_a: Mesh,
    mesh_b: Mesh,
    size: i32,
    subdivisions: u32,
    seed: u32,
    x: int,
    y: int,
)
    requires
        a.well_formed(),
        is_noise_tile(a, size, subdivisions, noise_plane(seed, (subdivisions + 2) as nat)),
        is_noise_tile(b, size, subdivisions, noise_plane(seed, (subdivisions + 2) as nat)),
        a.is_mesh(mesh_a),
        b.is_mesh(mesh_b),
    ensures
        same_tables(a.heightmap, b.heightmap),
        a.surface(x, y) == b.surface(x, y),
        mesh_a.positions@ == mesh_b.positions@,
        mesh_a.normals@ == mesh_b.normals@,
        mesh_a.uvs@ == mesh_b.uvs@,
        mesh_a.indices@ == mesh_b.indices@,
{
    let side = subdivisions + 2;
    assert forall|i: int| 0 <= i < a.heightmap.z@.len() implies (#[trigger] a.heightmap.z@[i])@
        == b.heightmap.z@[i]@ by {
        assert forall|j: int| 0 <= j < side implies a.heightmap.z@[i]@[j]
            == b.heightmap.z@[i]@[j] by {
            assert(noise_sample(
                noise_plane(seed, (subdivisions + 2) as nat),
                size,
                side,
                i,
                j,
            ) == Some(a.heightmap.z@[i]@[j]));
        }
        assert(a.heightmap.z@[i]@ =~= b.heightmap.z@[i]@);
    }
    lemma_same_surface(a.heightmap, b.heightmap, x, y);
    lemma_same_mesh(a, mesh_a, b, mesh_b);
}

} // verus!
