//! Surfaces that are sums of simple terms, each with its slope.
use vstd::prelude::*;
use crate::arith::{floor_div, lemma_floor_between, lemma_mul_bounds};
use crate::mesh::{
    assemble, grid_lines, grid_lines_spec, is_table, lemma_grid_lines_distinct,
    lemma_grid_lines_ordered, lemma_vertex_position, Mesh, MAX_SUBDIVISIONS,
};
use crate::{contact, contact_at, Interference, Normal, Vector};

verus! {

/// One of the two axes of the ground plane.
#[derive(Clone, Copy, Debug, PartialEq, Eq, Structural)]
pub enum Axis {
    X,
    Y,
}

/// A scalar field over a tile together with its slope.
#[derive(Clone, Copy, Debug, PartialEq, Eq, Structural)]
pub enum Term {
    /// Runs linearly along `axis` from `from` at one border of the tile to
    /// `to` at the opposite border.
    Ramp { axis: Axis, from: i32, to: i32 },
    /// A wave along x with crests of `amplitude` at every multiple of
    /// `wave_length`: `amplitude * cos(2 * pi * x / wave_length)`. A cosine
    /// is not a matter of integer arithmetic, so the value and the slope of
    /// a wave at a point are not computed here: whoever queries the tile
    /// evaluates them and hands them in as a [`Sample`].
    Wave { amplitude: i32, wave_length: i32 },
}

/// The value of a term at one point and its slope there along x and along
/// y, in fixed point, as evaluated by the caller.
#[derive(Clone, Copy, Debug, PartialEq, Eq, Structural)]
pub struct Sample {
    pub value: i32,
    pub slope_x: i64,
    pub slope_y: i64,
}

/// The larger of the magnitudes of `a` and `b`.
pub open spec fn max_magnitude(a: int, b: int) -> int {
    let m = if a < 0 { -a } else { a };
    let n = if b < 0 { -b } else { b };
    if m >= n { m } else { n }
}

/// The height of a ramp over a run of `length` at the distance `t` from its
/// start, rounded down.
pub open spec fn ramp_value(from: int, to: int, length: int, t: int) -> int {
    from + ((to - from) * t) / length
}

/// The slope of a ramp over a run of `length`, in fixed point, rounded
/// down.
pub open spec fn ramp_slope(from: int, to: int, length: int) -> int {
    ((to - from) * 65536) / length
}

/// A ramp stays between its ends over its run.
pub proof fn lemma_ramp_value_bounds(from: int, to: int, length: int, t: int)
    requires
        length > 0,
        0 <= t <= length,
    ensures
        -max_magnitude(from, to) <= ramp_value(from, to, length, t) <= max_magnitude(from, to),
        from <= to ==> from <= ramp_value(from, to, length, t) <= to,
        from >= to ==> to <= ramp_value(from, to, length, t) <= from,
        ramp_value(from, to, length, 0) == from,
        ramp_value(from, to, length, length) == to,
{
    let delta = to - from;
    if delta >= 0 {
        assert(0 * length <= delta * t <= delta * length) by (nonlinear_arith)
            requires
                delta >= 0,
                0 <= t <= length,
        ;
        lemma_floor_between(delta * t, length, 0, delta);
    } else {
        assert(delta * length <= delta * t <= 0 * length) by (nonlinear_arith)
            requires
                delta < 0,
                0 <= t <= length,
        ;
        lemma_floor_between(delta * t, length, delta, 0);
    }
    assert(delta * 0 == 0);
    crate::arith::lemma_div_exact(0, length);
    crate::arith::lemma_div_exact(delta, length);
}

impl Term {
    /// A wave has a wave length other than zero.
    pub open spec fn well_formed(&self) -> bool {
        match *self {
            Term::Ramp { .. } => true,
            Term::Wave { wave_length, .. } => wave_length != 0,
        }
    }

    /// The largest magnitude that the term reaches over a tile.
    pub open spec fn bound(&self) -> int {
        match *self {
            Term::Ramp { from, to, .. } => max_magnitude(from as int, to as int),
            Term::Wave { amplitude, .. } => max_magnitude(amplitude as int, 0),
        }
    }

    /// `sample` can be the value of the term at a point: that of a wave
    /// lies between its amplitude and the amplitude's negation. A ramp takes
    /// nothing from the sample.
    pub open spec fn accepts(&self, sample: Sample) -> bool {
        match *self {
            Term::Ramp { .. } => true,
            Term::Wave { .. } => -self.bound() <= sample.value <= self.bound(),
        }
    }

    /// The value of the term at `(x, y)` on a tile of the given size: that
    /// of a ramp by its own measures, that of a wave as `sample` gives it.
    pub open spec fn value(&self, size: [i32; 2], x: int, y: int, sample: Sample) -> int {
        match *self {
            Term::Ramp { axis: Axis::X, from, to } => ramp_value(
                from as int,
                to as int,
                size[0] as int,
                x,
            ),
            Term::Ramp { axis: Axis::Y, from, to } => ramp_value(
                from as int,
                to as int,
                size[1] as int,
                y,
            ),
            Term::Wave { .. } => sample.value as int,
        }
    }

    /// The slope of the term along x and along y at `(x, y)`, in fixed
    /// point: that of a ramp by its own measures, that of a wave as `sample`
    /// gives it.
    pub open spec fn slope(&self, size: [i32; 2], x: int, y: int, sample: Sample) -> (int, int) {
        match *self {
            Term::Ramp { axis: Axis::X, from, to } => (
                ramp_slope(from as int, to as int, size[0] as int),
                0,
            ),
            Term::Ramp { axis: Axis::Y, from, to } => (
                0,
                ramp_slope(from as int, to as int, size[1] as int),
            ),
            Term::Wave { .. } => (sample.slope_x as int, sample.slope_y as int),
        }
    }

    /// Over the tile, the term stays within its bound.
    pub proof fn lemma_value_within_bound(&self, size: [i32; 2], x: int, y: int, sample: Sample)
        requires
            self.accepts(sample),
            size[0] > 0,
            size[1] > 0,
            0 <= x <= size[0],
            0 <= y <= size[1],
        ensures
            -self.bound() <= self.value(size, x, y, sample) <= self.bound(),
            0 <= self.bound() <= 0x8000_0000,
    {
        match *self {
            Term::Ramp { axis: Axis::X, from, to } => {
                lemma_ramp_value_bounds(from as int, to as int, size[0] as int, x);
            },
            Term::Ramp { axis: Axis::Y, from, to } => {
                lemma_ramp_value_bounds(from as int, to as int, size[1] as int, y);
            },
            Term::Wave { .. } => {},
        }
    }

    /// The slope of the term, in fixed point, fits in 64 bits.
    pub proof fn lemma_slope_fits(&self, size: [i32; 2], x: int, y: int, sample: Sample)
        requires
            size[0] > 0,
            size[1] > 0,
        ensures
            -0x8000_0000_0000_0000 <= self.slope(size, x, y, sample).0 <= 0x8000_0000_0000_0000,
            -0x8000_0000_0000_0000 <= self.slope(size, x, y, sample).1 <= 0x8000_0000_0000_0000,
    {
        match *self {
            Term::Ramp { axis, from, to } => {
                let length: int = if axis == Axis::X { size[0] as int } else { size[1] as int };
                let delta = to - from;
                let m: int = 0x1_0000_0000_0000;
                assert(-m * length <= delta * 65536 <= m * length) by (nonlinear_arith)
                    requires
                        length >= 1,
                        -0x1_0000_0000 <= delta <= 0x1_0000_0000,
                        m == 0x1_0000_0000_0000,
                ;
                lemma_floor_between(delta * 65536, length, -m, m);
            },
            Term::Wave { .. } => {},
        }
    }

    /// Tells whether the term is well formed.
    pub fn is_well_formed(&self) -> (b: bool)
        ensures
            b == self.well_formed(),
    {
        match *self {
            Term::Ramp { .. } => true,
            Term::Wave { wave_length, .. } => wave_length != 0,
        }
    }

    /// The largest magnitude that the term reaches over a tile.
    pub fn bound_of(&self) -> (b: i64)
        ensures
            b == self.bound(),
            0 <= b <= 0x8000_0000,
    {
        match *self {
            Term::Ramp { from, to, .. } => {
                let m: i64 = if from < 0 { -(from as i64) } else { from as i64 };
                let n: i64 = if to < 0 { -(to as i64) } else { to as i64 };
                if m >= n { m } else { n }
            },
            Term::Wave { amplitude, .. } => {
                if amplitude < 0 { -(amplitude as i64) } else { amplitude as i64 }
            },
        }
    }

    /// Tells whether `sample` can be the value of the term at a point.
    pub fn accepts_sample(&self, sample: Sample) -> (b: bool)
        ensures
            b == self.accepts(sample),
    {
        match *self {
            Term::Ramp { .. } => true,
            Term::Wave { .. } => {
                let bound = self.bound_of();
                -bound <= sample.value as i64 && sample.value as i64 <= bound
            },
        }
    }

    /// The value of the term at a point of the tile, and its slope there
    /// along x and along y. A wave has the value and the slope of `sample`.
    pub fn evaluate(&self, size: [i32; 2], x: i32, y: i32, sample: Sample) -> (r: (
        i64,
        i128,
        i128,
    ))
        requires
            self.accepts(sample),
            size[0] > 0,
            size[1] > 0,
            0 <= x <= size[0],
            0 <= y <= size[1],
        ensures
            r.0 == self.value(size, x as int, y as int, sample),
            (r.1 as int, r.2 as int) == self.slope(size, x as int, y as int, sample),
            -self.bound() <= r.0 <= self.bound(),
            -0x8000_0000_0000_0000 <= r.1 <= 0x8000_0000_0000_0000,
            -0x8000_0000_0000_0000 <= r.2 <= 0x8000_0000_0000_0000,
    {
        proof {
            self.lemma_value_within_bound(size, x as int, y as int, sample);
            self.lemma_slope_fits(size, x as int, y as int, sample);
        }
        match *self {
            Term::Ramp { axis, from, to } => {
                let (length, t): (i32, i32) = match axis {
                    Axis::X => (size[0], x),
                    Axis::Y => (size[1], y),
                };
                let delta: i128 = to as i128 - from as i128;
                proof {
                    lemma_mul_bounds(delta as int, t as int, 0x1_0000_0000, 0x8000_0000);
                    lemma_ramp_value_bounds(from as int, to as int, length as int, t as int);
                }
                let rise: i128 = floor_div(delta * (t as i128), length as i128);
                let value: i64 = (from as i128 + rise) as i64;
                let slope: i128 = floor_div(delta * 65536, length as i128);
                match axis {
                    Axis::X => (value, slope, 0),
                    Axis::Y => (value, 0, slope),
                }
            },
            Term::Wave { .. } => (sample.value as i64, sample.slope_x as i128, sample.slope_y as i128),
        }
    }
}

/// The sum of the bounds of `terms`.
pub open spec fn total_bound(terms: Seq<Term>) -> int
    decreases terms.len(),
{
    if terms.len() == 0 {
        0
    } else {
        total_bound(terms.drop_last()) + terms.last().bound()
    }
}

/// `samples` holds one sample for each of `terms`, and each term accepts
/// its own.
pub open spec fn samples_accepted(terms: Seq<Term>, samples: Seq<Sample>) -> bool {
    &&& samples.len() == terms.len()
    &&& forall|k: int| 0 <= k < terms.len() ==> (#[trigger] terms[k]).accepts(samples[k])
}

/// The sum of the values of `terms` at `(x, y)`, of which term `k` takes
/// what it needs from `samples[k]`.
pub open spec fn total_value(
    terms: Seq<Term>,
    size: [i32; 2],
    x: int,
    y: int,
    samples: Seq<Sample>,
) -> int
    decreases terms.len(),
{
    if terms.len() == 0 {
        0
    } else {
        total_value(terms.drop_last(), size, x, y, samples) + terms.last().value(
            size,
            x,
            y,
            samples[terms.len() - 1],
        )
    }
}

/// The sum of the slopes of `terms` at `(x, y)`, along x and along y, of
/// which term `k` takes what it needs from `samples[k]`.
pub open spec fn total_slope(
    terms: Seq<Term>,
    size: [i32; 2],
    x: int,
    y: int,
    samples: Seq<Sample>,
) -> (int, int)
    decreases terms.len(),
{
    if terms.len() == 0 {
        (0, 0)
    } else {
        let rest = total_slope(terms.drop_last(), size, x, y, samples);
        let last = terms.last().slope(size, x, y, samples[terms.len() - 1]);
        (rest.0 + last.0, rest.1 + last.1)
    }
}

/// The bounds of the first terms add up to no more than the bounds of all.
pub proof fn lemma_total_bound_grows(terms: Seq<Term>, k: int)
    requires
        0 <= k <= terms.len(),
    ensures
        0 <= total_bound(terms.take(k)) <= total_bound(terms),
    decreases terms.len() - k,
{
    if k == terms.len() {
        assert(terms.take(k) =~= terms);
        lemma_total_bound_positive(terms);
    } else {
        lemma_total_bound_grows(terms, k + 1);
        assert(terms.take(k + 1).drop_last() =~= terms.take(k));
        lemma_total_bound_positive(terms.take(k));
    }
}

/// A sum of bounds is not negative.
pub proof fn lemma_total_bound_positive(terms: Seq<Term>)
    ensures
        0 <= total_bound(terms),
    decreases terms.len(),
{
    if terms.len() > 0 {
        lemma_total_bound_positive(terms.drop_last());
    }
}

/// A tile whose surface is the sum of an ordered sequence of terms. Its
/// mesh has `subdivisions` grid lines between its borders on each axis.
/// Where `gradient_normal` is set, the surface pushes back along the normal
/// that the summed slopes give; otherwise straight up.
///
/// A query hands in one [`Sample`] for each term, in the order of the
/// terms: that of a wave holds the wave's value and slope at the point of
/// the query, that of a ramp is not read.
#[derive(Clone, Debug)]
pub struct Function {
    pub size: [i32; 2],
    pub functions: Vec<Term>,
    pub subdivisions: u32,
    pub gradient_normal: bool,
}

impl Function {
    /// The footprint is not empty, the vertices of the mesh can be numbered
    /// in 32 bits, every term is well formed, and the bounds of the terms
    /// add up to a height that fits in 32 bits.
    pub open spec fn well_formed(&self) -> bool {
        &&& self.size[0] > 0
        &&& self.size[1] > 0
        &&& self.subdivisions <= MAX_SUBDIVISIONS
        &&& forall|k: int| 0 <= k < self.functions@.len() ==> (#[trigger] self.functions@[k]).well_formed()
        &&& total_bound(self.functions@) <= i32::MAX
    }

    /// `(x, y)` lies on the tile, its border included.
    pub open spec fn on_tile(&self, x: int, y: int) -> bool {
        0 <= x <= self.size[0] && 0 <= y <= self.size[1]
    }

    /// `samples` holds one sample for each term, and each term accepts its
    /// own.
    pub open spec fn accepts(&self, samples: Seq<Sample>) -> bool {
        samples_accepted(self.functions@, samples)
    }

    /// `table` holds accepted samples for each vertex of the mesh.
    pub open spec fn accepts_grid(&self, table: Seq<Vec<Vec<Sample>>>) -> bool {
        &&& is_table(table, self.subdivisions + 2, self.subdivisions + 2)
        &&& forall|i: int, j: int|
            0 <= i < self.subdivisions + 2 && 0 <= j < self.subdivisions + 2 ==> self.accepts(
                (#[trigger] table[i]@[j])@,
            )
    }

    /// The height of the surface above a point of the tile: the sum of the
    /// terms there.
    pub open spec fn surface(&self, x: int, y: int, samples: Seq<Sample>) -> Option<int> {
        if self.on_tile(x, y) {
            Some(total_value(self.functions@, self.size, x, y, samples))
        } else {
            None
        }
    }

    /// The direction in which the surface pushes back at `(x, y)`.
    pub open spec fn normal_at(&self, x: int, y: int, samples: Seq<Sample>) -> Normal {
        if self.gradient_normal {
            let slope = total_slope(self.functions@, self.size, x, y, samples);
            Normal { x: (-slope.0) as i128, y: (-slope.1) as i128, z: 65536 }
        } else {
            Normal::up()
        }
    }

    /// Tells whether the tile is well formed.
    pub fn is_well_formed(&self) -> (b: bool)
        ensures
            b == self.well_formed(),
    {
        if self.size[0] <= 0 || self.size[1] <= 0 || self.subdivisions > MAX_SUBDIVISIONS {
            return false;
        }
        let mut sum: i64 = 0;
        let mut k: usize = 0;
        while k < self.functions.len()
            invariant
                k <= self.functions@.len(),
                sum == total_bound(self.functions@.take(k as int)),
                0 <= sum <= i32::MAX,
                forall|i: int| 0 <= i < k ==> (#[trigger] self.functions@[i]).well_formed(),
            decreases self.functions@.len() - k,
        {
            let term = self.functions[k];
            proof {
                assert(self.functions@.take(k + 1).drop_last() =~= self.functions@.take(k as int));
                lemma_total_bound_grows(self.functions@, k + 1);
            }
            if !term.is_well_formed() {
                return false;
            }
            sum = sum + term.bound_of();
            if sum > 0x7fff_ffff {
                return false;
            }
            k += 1;
        }
        proof {
            assert(self.functions@.take(k as int) =~= self.functions@);
        }
        true
    }

    /// Tells whether `samples` holds one accepted sample for each term.
    pub fn accepts_samples(&self, samples: &Vec<Sample>) -> (b: bool)
        ensures
            b == self.accepts(samples@),
    {
        if samples.len() != self.functions.len() {
            return false;
        }
        let mut k: usize = 0;
        while k < self.functions.len()
            invariant
                samples@.len() == self.functions@.len(),
                k <= self.functions@.len(),
                forall|i: int| 0 <= i < k ==> (#[trigger] self.functions@[i]).accepts(samples@[i]),
            decreases self.functions@.len() - k,
        {
            if !self.functions[k].accepts_sample(samples[k]) {
                return false;
            }
            k += 1;
        }
        true
    }

    /// Tells whether `table` holds accepted samples for each vertex of the
    /// mesh.
    pub fn accepts_table(&self, table: &Vec<Vec<Vec<Sample>>>) -> (b: bool)
        requires
            self.subdivisions <= MAX_SUBDIVISIONS,
        ensures
            b == self.accepts_grid(table@),
    {
        let count: usize = (self.subdivisions + 2) as usize;
        if table.len() != count {
            return false;
        }
        let mut i: usize = 0;
        while i < count
            invariant
                count == self.subdivisions + 2,
                table@.len() == count,
                i <= count,
                forall|a: int| 0 <= a < i ==> (#[trigger] table@[a])@.len() == count,
                forall|a: int, b: int|
                    0 <= a < i && 0 <= b < count ==> self.accepts((#[trigger] table@[a]@[b])@),
            decreases count - i,
        {
            if table[i].len() != count {
                return false;
            }
            let mut j: usize = 0;
            while j < count
                invariant
                    count == self.subdivisions + 2,
                    table@.len() == count,
                    i < count,
                    table@[i as int]@.len() == count,
                    j <= count,
                    forall|b: int| 0 <= b < j ==> self.accepts((#[trigger] table@[i as int]@[b])@),
                decreases count - j,
            {
                if !self.accepts_samples(&table[i][j]) {
                    return false;
                }
                j += 1;
            }
            i += 1;
        }
        true
    }

    /// The height of the surface above a point of the tile, and its slope
    /// there along x and along y.
    pub fn evaluate(&self, x: i32, y: i32, samples: &Vec<Sample>) -> (r: (i32, i128, i128))
        requires
            self.well_formed(),
            self.on_tile(x as int, y as int),
            self.accepts(samples@),
        ensures
            r.0 == total_value(self.functions@, self.size, x as int, y as int, samples@),
            (r.1 as int, r.2 as int) == total_slope(
                self.functions@,
                self.size,
                x as int,
                y as int,
                samples@,
            ),
            -0x7fff_ffff_ffff_ffff_ffff_ffff_ffff_ffff <= r.1,
            -0x7fff_ffff_ffff_ffff_ffff_ffff_ffff_ffff <= r.2,
    {
        let mut height: i64 = 0;
        let mut slope_x: i128 = 0;
        let mut slope_y: i128 = 0;
        let mut k: usize = 0;
        let ghost terms = self.functions@;
        while k < self.functions.len()
            invariant
                self.well_formed(),
                self.on_tile(x as int, y as int),
                self.accepts(samples@),
                terms == self.functions@,
                k <= terms.len(),
                height == total_value(terms.take(k as int), self.size, x as int, y as int, samples@),
                (slope_x as int, slope_y as int) == total_slope(
                    terms.take(k as int),
                    self.size,
                    x as int,
                    y as int,
                    samples@,
                ),
                -total_bound(terms.take(k as int)) <= height <= total_bound(terms.take(k as int)),
                -k * 0x8000_0000_0000_0000 <= slope_x <= k * 0x8000_0000_0000_0000,
                -k * 0x8000_0000_0000_0000 <= slope_y <= k * 0x8000_0000_0000_0000,
                0 <= total_bound(terms.take(k as int)) <= i32::MAX,
            decreases terms.len() - k,
        {
            proof {
                assert(terms.take(k + 1).drop_last() =~= terms.take(k as int));
                lemma_total_bound_grows(terms, k + 1);
            }
            let (value, dx, dy) = self.functions[k].evaluate(self.size, x, y, samples[k]);
            height = height + value;
            slope_x = slope_x + dx;
            slope_y = slope_y + dy;
            k += 1;
        }
        proof {
            assert(terms.take(k as int) =~= terms);
        }
        (height as i32, slope_x, slope_y)
    }

    /// The height of the surface above `(x, y)` and the direction in which
    /// it pushes back there, where the point lies on the tile.
    pub fn surface_at(&self, x: i32, y: i32, samples: &Vec<Sample>) -> (r: Option<(i32, Normal)>)
        requires
            self.well_formed(),
            self.accepts(samples@),
        ensures
            r is Some <==> self.on_tile(x as int, y as int),
            r matches Some(s) ==> self.surface(x as int, y as int, samples@) == Some(s.0 as int)
                && s.1 == self.normal_at(x as int, y as int, samples@),
    {
        if x < 0 || x > self.size[0] || y < 0 || y > self.size[1] {
            return None;
        }
        let (height, slope_x, slope_y) = self.evaluate(x, y, samples);
        let normal = if self.gradient_normal {
            Normal { x: -slope_x, y: -slope_y, z: 65536 }
        } else {
            Normal::up()
        };
        Some((height, normal))
    }

    /// `mesh` is the mesh of the tile for the samples of `table`: the grid
    /// over its grid lines, each vertex at the summed height and with the
    /// normal of the surface there, and texture coordinates whose `v` runs
    /// against y.
    pub open spec fn is_mesh(&self, mesh: Mesh, table: Seq<Vec<Vec<Sample>>>) -> bool {
        &&& mesh.is_grid(
            grid_lines_spec(self.size[0], self.subdivisions),
            grid_lines_spec(self.size[1], self.subdivisions),
            true,
        )
        &&& forall|k: int|
            #![trigger mesh.positions@[k]]
            #![trigger mesh.normals@[k]]
            0 <= k < mesh.positions@.len() ==> {
                let samples = table[k / (self.subdivisions + 2)]@[k % (self.subdivisions + 2)]@;
                &&& self.surface(
                    mesh.positions@[k].x as int,
                    mesh.positions@[k].y as int,
                    samples,
                ) == Some(mesh.positions@[k].z as int)
                &&& mesh.normals@[k] == self.normal_at(
                    mesh.positions@[k].x as int,
                    mesh.positions@[k].y as int,
                    samples,
                )
            }
    }

    /// The mesh of the tile: the summed terms on a grid of
    /// `(subdivisions + 2)` by `(subdivisions + 2)` vertices, so that the
    /// surface that `interference` tests passes through every vertex.
    /// `table[i][j]` holds the samples at the crossing of grid line `i`
    /// across x and grid line `j` across y.
    pub fn mesh(&self, table: &Vec<Vec<Vec<Sample>>>) -> (mesh: Mesh)
        requires
            self.well_formed(),
            self.accepts_grid(table@),
        ensures
            self.is_mesh(mesh, table@),
            mesh.well_formed(),
            mesh.positions@.len() == (self.subdivisions + 2) * (self.subdivisions + 2),
            mesh.indices@.len() == (self.subdivisions + 1) * (self.subdivisions + 1) * 6,
            mesh.never_clockwise(),
            self.size[0] > self.subdivisions && self.size[1] > self.subdivisions
                ==> mesh.counter_clockwise(),
    {
        let count: usize = (self.subdivisions + 2) as usize;
        let xs = grid_lines(self.size[0], self.subdivisions);
        let ys = grid_lines(self.size[1], self.subdivisions);
        proof {
            lemma_grid_lines_ordered(self.size[0], self.subdivisions);
            lemma_grid_lines_ordered(self.size[1], self.subdivisions);
            assert forall|a: int| 0 <= a < count implies 0 <= #[trigger] xs@[a] <= self.size[0] by {
                assert(xs@[a] == crate::mesh::grid_line(
                    self.size[0] as int,
                    self.subdivisions as int,
                    a,
                ));
            }
            assert forall|b: int| 0 <= b < count implies 0 <= #[trigger] ys@[b] <= self.size[1] by {
                assert(ys@[b] == crate::mesh::grid_line(
                    self.size[1] as int,
                    self.subdivisions as int,
                    b,
                ));
            }
        }
        let mut heights: Vec<Vec<i32>> = Vec::new();
        let mut normals: Vec<Vec<Normal>> = Vec::new();
        let mut i: usize = 0;
        while i < count
            invariant
                self.well_formed(),
                self.accepts_grid(table@),
                count == self.subdivisions + 2,
                xs@.len() == count,
                ys@.len() == count,
                forall|a: int| 0 <= a < count ==> 0 <= #[trigger] xs@[a] <= self.size[0],
                forall|b: int| 0 <= b < count ==> 0 <= #[trigger] ys@[b] <= self.size[1],
                i <= count,
                heights@.len() == i,
                normals@.len() == i,
                forall|a: int| 0 <= a < i ==> (#[trigger] heights@[a])@.len() == count,
                forall|a: int| 0 <= a < i ==> (#[trigger] normals@[a])@.len() == count,
                forall|a: int, b: int|
                    0 <= a < i && 0 <= b < count ==> self.surface(
                        xs@[a] as int,
                        ys@[b] as int,
                        table@[a]@[b]@,
                    ) == Some((#[trigger] heights@[a]@[b]) as int),
                forall|a: int, b: int|
                    0 <= a < i && 0 <= b < count ==> (#[trigger] normals@[a]@[b])
                        == self.normal_at(xs@[a] as int, ys@[b] as int, table@[a]@[b]@),
            decreases count - i,
        {
            let mut row: Vec<i32> = Vec::new();
            let mut normal_row: Vec<Normal> = Vec::new();
            let mut j: usize = 0;
            while j < count
                invariant
                    self.well_formed(),
                    self.accepts_grid(table@),
                    count == self.subdivisions + 2,
                    xs@.len() == count,
                    ys@.len() == count,
                    forall|a: int| 0 <= a < count ==> 0 <= #[trigger] xs@[a] <= self.size[0],
                    forall|b: int| 0 <= b < count ==> 0 <= #[trigger] ys@[b] <= self.size[1],
                    i < count,
                    j <= count,
                    row@.len() == j,
                    normal_row@.len() == j,
                    forall|b: int|
                        0 <= b < j ==> self.surface(
                            xs@[i as int] as int,
                            ys@[b] as int,
                            table@[i as int]@[b]@,
                        ) == Some((#[trigger] row@[b]) as int),
                    forall|b: int|
                        0 <= b < j ==> (#[trigger] normal_row@[b]) == self.normal_at(
                            xs@[i as int] as int,
                            ys@[b] as int,
                            table@[i as int]@[b]@,
                        ),
                decreases count - j,
            {
                assert(table@[i as int]@.len() == count);
                assert(self.accepts(table@[i as int]@[j as int]@));
                match self.surface_at(xs[i], ys[j], &table[i][j]) {
                    Some((h, n)) => {
                        row.push(h);
                        normal_row.push(n);
                    },
                    None => {
                        row.push(0);
                        normal_row.push(Normal::up());
                    },
                }
                j += 1;
            }
            heights.push(row);
            normals.push(normal_row);
            i += 1;
        }
        proof {
            assert(count * count <= 0x1_0000_0000) by (nonlinear_arith)
                requires
                    count <= 65536,
            ;
        }
        let mesh = assemble(&xs, &ys, &heights, &normals, true);
        proof {
            mesh.lemma_grid_never_clockwise(xs@, ys@);
            if self.size[0] > self.subdivisions && self.size[1] > self.subdivisions {
                lemma_grid_lines_distinct(self.size[0], self.subdivisions);
                lemma_grid_lines_distinct(self.size[1], self.subdivisions);
                mesh.lemma_grid_counter_clockwise(xs@, ys@);
            }
            assert(mesh.indices@.len() == (count - 1) * (count - 1) * 6);
            assert forall|k: int| 0 <= k < mesh.positions@.len() implies {
                let samples = table@[k / (count as int)]@[k % (count as int)]@;
                &&& self.surface(
                    (#[trigger] mesh.positions@[k]).x as int,
                    mesh.positions@[k].y as int,
                    samples,
                ) == Some(mesh.positions@[k].z as int)
                &&& mesh.normals@[k] == self.normal_at(
                    mesh.positions@[k].x as int,
                    mesh.positions@[k].y as int,
                    samples,
                )
            } by {
                lemma_vertex_position(count as int, count as int, k);
            }
        }
        mesh
    }

    /// A point collides where it lies on the tile and below the summed
    /// height there.
    pub fn interference(&self, point: Vector, samples: &Vec<Sample>) -> (r: Option<Interference>)
        requires
            self.well_formed(),
            self.accepts(samples@),
        ensures
            r == contact(
                self.surface(point.x as int, point.y as int, samples@),
                self.normal_at(point.x as int, point.y as int, samples@),
                point,
            ),
            !self.on_tile(point.x as int, point.y as int) ==> r is None,
            r matches Some(hit) ==> crate::lies_above(hit, point),
    {
        match self.surface_at(point.x, point.y, samples) {
            Some((ground, normal)) => contact_at(ground, normal, point),
            None => None,
        }
    }
}

} // verus!
