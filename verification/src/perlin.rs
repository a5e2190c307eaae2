//! A height field over a non-uniform grid, sampled by bilinear interpolation.
use vstd::prelude::*;
use crate::arith::{
    floor_div, lemma_div_cancel, lemma_div_exact, lemma_floor_between, lemma_mul_bounds,
    lemma_quotients_close,
};
use crate::function::max_magnitude;
use crate::mesh::{assemble, grid_uv, is_table, lemma_vertex_position, Mesh, MAX_SUBDIVISIONS};
use crate::{contact, contact_at, Interference, Normal, Vector};

verus! {

/// The smallest of four values.
pub open spec fn min4(a: int, b: int, c: int, d: int) -> int {
    let ab = if a <= b { a } else { b };
    let cd = if c <= d { c } else { d };
    if ab <= cd { ab } else { cd }
}

/// The largest of four values.
pub open spec fn max4(a: int, b: int, c: int, d: int) -> int {
    let ab = if a >= b { a } else { b };
    let cd = if c >= d { c } else { d };
    if ab >= cd { ab } else { cd }
}

/// The four corners of a grid cell: its bounding coordinates on both axes
/// and the heights above them, `q21` standing above `(x2, y1)`.
pub struct Cell {
    pub x1: i32,
    pub x2: i32,
    pub y1: i32,
    pub y2: i32,
    pub q11: i32,
    pub q12: i32,
    pub q21: i32,
    pub q22: i32,
}

impl Cell {
    /// The cell has a positive extent on both axes.
    pub open spec fn well_formed(&self) -> bool {
        self.x1 < self.x2 && self.y1 < self.y2
    }

    /// `(x, y)` lies in the cell, its border included.
    pub open spec fn holds(&self, x: int, y: int) -> bool {
        self.x1 <= x <= self.x2 && self.y1 <= y <= self.y2
    }

    /// The area of the cell, by which the weighted sum is divided.
    pub open spec fn area(&self) -> int {
        (self.x2 - self.x1) * (self.y2 - self.y1)
    }

    /// The corner heights, each weighted by the area of the rectangle
    /// between `(x, y)` and the opposite corner.
    pub open spec fn weighted_sum(&self, x: int, y: int) -> int {
        let r1 = (self.x2 - x) * self.q11 + (x - self.x1) * self.q21;
        let r2 = (self.x2 - x) * self.q12 + (x - self.x1) * self.q22;
        (self.y2 - y) * r1 + (y - self.y1) * r2
    }

    /// The bilinear interpolation of the corner heights at `(x, y)`, rounded
    /// down to a fixed-point value.
    pub open spec fn interpolate_spec(&self, x: int, y: int) -> int {
        self.weighted_sum(x, y) / self.area()
    }

    /// The lowest of the four corner heights.
    pub open spec fn lowest(&self) -> int {
        min4(self.q11 as int, self.q12 as int, self.q21 as int, self.q22 as int)
    }

    /// The highest of the four corner heights.
    pub open spec fn highest(&self) -> int {
        max4(self.q11 as int, self.q12 as int, self.q21 as int, self.q22 as int)
    }

    /// The weighted sum lies between the lowest and the highest corner, each
    /// taken as many times as the area.
    pub proof fn lemma_weighted_sum_bounds(&self, x: int, y: int)
        requires
            self.well_formed(),
            self.holds(x, y),
        ensures
            self.area() > 0,
            self.lowest() * self.area() <= self.weighted_sum(x, y) <= self.highest() * self.area(),
    {
        let lo = self.lowest();
        let hi = self.highest();
        let a = self.x2 - x;
        let b = x - self.x1;
        let c = self.y2 - y;
        let e = y - self.y1;
        let r1 = a * self.q11 + b * self.q21;
        let r2 = a * self.q12 + b * self.q22;
        lemma_blend_bounds(a, b, self.q11 as int, self.q21 as int, lo, hi);
        lemma_blend_bounds(a, b, self.q12 as int, self.q22 as int, lo, hi);
        lemma_blend_bounds(c, e, r1, r2, lo * (a + b), hi * (a + b));
        assert((lo * (a + b)) * (c + e) == lo * ((a + b) * (c + e))) by (nonlinear_arith);
        assert((hi * (a + b)) * (c + e) == hi * ((a + b) * (c + e))) by (nonlinear_arith);
        assert((a + b) * (c + e) > 0) by (nonlinear_arith)
            requires
                a + b > 0,
                c + e > 0,
        ;
    }

    /// An interpolated height is a convex combination of the four corner
    /// heights, so it lies between the lowest and the highest of them.
    pub proof fn lemma_interpolate_within_corners(&self, x: int, y: int)
        requires
            self.well_formed(),
            self.holds(x, y),
        ensures
            self.lowest() <= self.interpolate_spec(x, y) <= self.highest(),
    {
        self.lemma_weighted_sum_bounds(x, y);
        lemma_floor_between(self.weighted_sum(x, y), self.area(), self.lowest(), self.highest());
    }

    /// Along the edge `x == x1` only the two corners on that edge count.
    pub proof fn lemma_on_lower_x(&self, y: int)
        requires
            self.well_formed(),
        ensures
            self.interpolate_spec(self.x1 as int, y) == ((self.y2 - y) * self.q11 + (y - self.y1)
                * self.q12) / (self.y2 - self.y1),
    {
        let k = self.x2 - self.x1;
        let a = (self.y2 - y) * self.q11 + (y - self.y1) * self.q12;
        assert(self.weighted_sum(self.x1 as int, y) == k * a) by (nonlinear_arith)
            requires
                k == self.x2 - self.x1,
                a == (self.y2 - y) * self.q11 + (y - self.y1) * self.q12,
                self.weighted_sum(self.x1 as int, y) == (self.y2 - y) * ((self.x2 - self.x1)
                    * self.q11 + (self.x1 - self.x1) * self.q21) + (y - self.y1) * ((self.x2
                    - self.x1) * self.q12 + (self.x1 - self.x1) * self.q22),
        ;
        lemma_div_cancel(k, a, self.y2 - self.y1);
    }

    /// Along the edge `x == x2` only the two corners on that edge count.
    pub proof fn lemma_on_upper_x(&self, y: int)
        requires
            self.well_formed(),
        ensures
            self.interpolate_spec(self.x2 as int, y) == ((self.y2 - y) * self.q21 + (y - self.y1)
                * self.q22) / (self.y2 - self.y1),
    {
        let k = self.x2 - self.x1;
        let a = (self.y2 - y) * self.q21 + (y - self.y1) * self.q22;
        assert(self.weighted_sum(self.x2 as int, y) == k * a) by (nonlinear_arith)
            requires
                k == self.x2 - self.x1,
                a == (self.y2 - y) * self.q21 + (y - self.y1) * self.q22,
                self.weighted_sum(self.x2 as int, y) == (self.y2 - y) * ((self.x2 - self.x2)
                    * self.q11 + (self.x2 - self.x1) * self.q21) + (y - self.y1) * ((self.x2
                    - self.x2) * self.q12 + (self.x2 - self.x1) * self.q22),
        ;
        lemma_div_cancel(k, a, self.y2 - self.y1);
    }

    /// Along the edge `y == y1` only the two corners on that edge count.
    pub proof fn lemma_on_lower_y(&self, x: int)
        requires
            self.well_formed(),
        ensures
            self.interpolate_spec(x, self.y1 as int) == ((self.x2 - x) * self.q11 + (x - self.x1)
                * self.q21) / (self.x2 - self.x1),
    {
        let k = self.y2 - self.y1;
        let a = (self.x2 - x) * self.q11 + (x - self.x1) * self.q21;
        assert(self.weighted_sum(x, self.y1 as int) == k * a && self.area() == k * (self.x2
            - self.x1)) by (nonlinear_arith)
            requires
                k == self.y2 - self.y1,
                a == (self.x2 - x) * self.q11 + (x - self.x1) * self.q21,
                self.area() == (self.x2 - self.x1) * (self.y2 - self.y1),
                self.weighted_sum(x, self.y1 as int) == (self.y2 - self.y1) * ((self.x2 - x)
                    * self.q11 + (x - self.x1) * self.q21) + (self.y1 - self.y1) * ((self.x2 - x)
                    * self.q12 + (x - self.x1) * self.q22),
        ;
        lemma_div_cancel(k, a, self.x2 - self.x1);
    }

    /// Along the edge `y == y2` only the two corners on that edge count.
    pub proof fn lemma_on_upper_y(&self, x: int)
        requires
            self.well_formed(),
        ensures
            self.interpolate_spec(x, self.y2 as int) == ((self.x2 - x) * self.q12 + (x - self.x1)
                * self.q22) / (self.x2 - self.x1),
    {
        let k = self.y2 - self.y1;
        let a = (self.x2 - x) * self.q12 + (x - self.x1) * self.q22;
        assert(self.weighted_sum(x, self.y2 as int) == k * a && self.area() == k * (self.x2
            - self.x1)) by (nonlinear_arith)
            requires
                k == self.y2 - self.y1,
                a == (self.x2 - x) * self.q12 + (x - self.x1) * self.q22,
                self.area() == (self.x2 - self.x1) * (self.y2 - self.y1),
                self.weighted_sum(x, self.y2 as int) == (self.y2 - self.y2) * ((self.x2 - x)
                    * self.q11 + (x - self.x1) * self.q21) + (self.y2 - self.y1) * ((self.x2 - x)
                    * self.q12 + (x - self.x1) * self.q22),
        ;
        lemma_div_cancel(k, a, self.x2 - self.x1);
    }

    /// At each corner the interpolation is the sample itself.
    pub proof fn lemma_at_corners(&self)
        requires
            self.well_formed(),
        ensures
            self.interpolate_spec(self.x1 as int, self.y1 as int) == self.q11,
            self.interpolate_spec(self.x1 as int, self.y2 as int) == self.q12,
            self.interpolate_spec(self.x2 as int, self.y1 as int) == self.q21,
            self.interpolate_spec(self.x2 as int, self.y2 as int) == self.q22,
    {
        let k = self.y2 - self.y1;
        self.lemma_on_lower_x(self.y1 as int);
        self.lemma_on_lower_x(self.y2 as int);
        self.lemma_on_upper_x(self.y1 as int);
        self.lemma_on_upper_x(self.y2 as int);
        lemma_edge_weights(k, self.q11 as int, self.q12 as int);
        lemma_edge_weights(k, self.q21 as int, self.q22 as int);
        lemma_div_exact(self.q11 as int, k);
        lemma_div_exact(self.q12 as int, k);
        lemma_div_exact(self.q21 as int, k);
        lemma_div_exact(self.q22 as int, k);
    }

    /// The steepest rise per step along x that an edge of the cell has,
    /// rounded down.
    pub open spec fn steepness_x(&self) -> int {
        max_magnitude(self.q21 - self.q11, self.q22 - self.q12) / (self.x2 - self.x1)
    }

    /// The steepest rise per step along y that an edge of the cell has,
    /// rounded down.
    pub open spec fn steepness_y(&self) -> int {
        max_magnitude(self.q12 - self.q11, self.q22 - self.q21) / (self.y2 - self.y1)
    }

    /// One step along x changes the interpolated height by no more than the
    /// steepest edge along x rises per step, and one more for rounding.
    pub proof fn lemma_step_along_x(&self, x: int, y: int)
        requires
            self.well_formed(),
            self.holds(x, y),
            self.holds(x + 1, y),
        ensures
            -(self.steepness_x() + 1) <= self.interpolate_spec(x + 1, y) - self.interpolate_spec(
                x,
                y,
            ) <= self.steepness_x() + 1,
    {
        let dx = self.x2 - self.x1;
        let dy = self.y2 - self.y1;
        let s = max_magnitude(self.q21 - self.q11, self.q22 - self.q12);
        let k = s / dx;
        let c = self.y2 - y;
        let e = y - self.y1;
        let delta = self.weighted_sum(x + 1, y) - self.weighted_sum(x, y);
        lemma_shifted_blend(self.x2 - x, x - self.x1, self.q11 as int, self.q21 as int, c);
        lemma_shifted_blend(self.x2 - x, x - self.x1, self.q12 as int, self.q22 as int, e);
        assert(delta == c * (self.q21 - self.q11) + e * (self.q22 - self.q12));
        lemma_blend_bounds(c, e, self.q21 - self.q11, self.q22 - self.q12, -s, s);
        lemma_steepness(s, dx, dy);
        lemma_quotients_close(self.weighted_sum(x, y), self.weighted_sum(x + 1, y), dx * dy, k);
    }

    /// One step along y changes the interpolated height by no more than the
    /// steepest edge along y rises per step, and one more for rounding.
    pub proof fn lemma_step_along_y(&self, x: int, y: int)
        requires
            self.well_formed(),
            self.holds(x, y),
            self.holds(x, y + 1),
        ensures
            -(self.steepness_y() + 1) <= self.interpolate_spec(x, y + 1) - self.interpolate_spec(
                x,
                y,
            ) <= self.steepness_y() + 1,
    {
        let dx = self.x2 - self.x1;
        let dy = self.y2 - self.y1;
        let s = max_magnitude(self.q12 - self.q11, self.q22 - self.q21);
        let k = s / dy;
        let a = self.x2 - x;
        let b = x - self.x1;
        let delta = self.weighted_sum(x, y + 1) - self.weighted_sum(x, y);
        let r1 = a * self.q11 + b * self.q21;
        let r2 = a * self.q12 + b * self.q22;
        assert((self.y2 - (y + 1)) * r1 + ((y + 1) - self.y1) * r2 == ((self.y2 - y) * r1 + (y
            - self.y1) * r2) + (r2 - r1)) by (nonlinear_arith);
        assert(delta == a * (self.q12 - self.q11) + b * (self.q22 - self.q21))
            by (nonlinear_arith)
            requires
                delta == r2 - r1,
                r1 == a * self.q11 + b * self.q21,
                r2 == a * self.q12 + b * self.q22,
        ;
        lemma_blend_bounds(a, b, self.q12 - self.q11, self.q22 - self.q21, -s, s);
        lemma_steepness(s, dy, dx);
        assert(dy * dx == dx * dy) by (nonlinear_arith);
        lemma_quotients_close(self.weighted_sum(x, y), self.weighted_sum(x, y + 1), dx * dy, k);
    }

    /// Bilinear interpolation of the corner heights at a point of the cell.
    pub fn interpolate(&self, x: i32, y: i32) -> (h: i32)
        requires
            self.well_formed(),
            self.holds(x as int, y as int),
        ensures
            h as int == self.interpolate_spec(x as int, y as int),
            self.lowest() <= h as int <= self.highest(),
    {
        let a: i128 = self.x2 as i128 - x as i128;
        let b: i128 = x as i128 - self.x1 as i128;
        let c: i128 = self.y2 as i128 - y as i128;
        let e: i128 = y as i128 - self.y1 as i128;
        let w: i128 = 0x1_0000_0000;
        let q: i128 = 0x8000_0000;
        proof {
            lemma_mul_bounds(a as int, self.q11 as int, w as int, q as int);
            lemma_mul_bounds(b as int, self.q21 as int, w as int, q as int);
            lemma_mul_bounds(a as int, self.q12 as int, w as int, q as int);
            lemma_mul_bounds(b as int, self.q22 as int, w as int, q as int);
        }
        let r1: i128 = a * (self.q11 as i128) + b * (self.q21 as i128);
        let r2: i128 = a * (self.q12 as i128) + b * (self.q22 as i128);
        proof {
            lemma_mul_bounds(c as int, r1 as int, w as int, 2 * (w * q));
            lemma_mul_bounds(e as int, r2 as int, w as int, 2 * (w * q));
            lemma_mul_bounds(a + b, c + e, w as int, w as int);
            self.lemma_weighted_sum_bounds(x as int, y as int);
            self.lemma_interpolate_within_corners(x as int, y as int);
        }
        let n: i128 = c * r1 + e * r2;
        let d: i128 = (a + b) * (c + e);
        let h: i128 = floor_div(n, d);
        h as i32
    }
}

/// Moving one step of weight from the first to the second of two blended
/// values changes the blend, taken `c` times, by `c` times their
/// difference.
proof fn lemma_shifted_blend(a: int, b: int, p: int, q: int, c: int)
    ensures
        c * ((a - 1) * p + (b + 1) * q) == c * (a * p + b * q) + c * (q - p),
{
    assert((a - 1) * p + (b + 1) * q == (a * p + b * q) + (q - p)) by (nonlinear_arith);
    assert(c * ((a * p + b * q) + (q - p)) == c * (a * p + b * q) + c * (q - p))
        by (nonlinear_arith);
}

/// A rise of at most `s` over a run of `along`, taken `across` times, stays
/// below one more than the rise per step, taken as many times as the area.
proof fn lemma_steepness(s: int, along: int, across: int)
    requires
        s >= 0,
        along > 0,
        across > 0,
    ensures
        s / along >= 0,
        s * across < (s / along + 1) * (along * across),
        -(s / along + 1) * (along * across) < (-s) * across,
        along * across > 0,
{
    let k = s / along;
    vstd::arithmetic::div_mod::lemma_fundamental_div_mod(s, along);
    vstd::arithmetic::div_mod::lemma_mod_bound(s, along);
    assert(0 * along <= s <= s * along) by (nonlinear_arith)
        requires
            s >= 0,
            along >= 1,
    ;
    lemma_floor_between(s, along, 0, s);
    assert(s * across < (k + 1) * (along * across) && -(k + 1) * (along * across) < (-s) * across
        && along * across > 0) by (nonlinear_arith)
        requires
            s == along * k + s % along,
            0 <= s % along < along,
            across > 0,
            along > 0,
    ;
}

/// With all of the weight `k` on one of two values, their blend is `k`
/// times that value.
proof fn lemma_edge_weights(k: int, p: int, q: int)
    by (nonlinear_arith)
    ensures
        k * p + 0 * q == p * k,
        0 * p + k * q == q * k,
{
}

/// A blend of two values with weights that are not negative lies between
/// the bounds of the values, each taken as many times as the weights' sum.
pub proof fn lemma_blend_bounds(a: int, b: int, p: int, q: int, lo: int, hi: int)
    by (nonlinear_arith)
    requires
        a >= 0,
        b >= 0,
        lo <= p <= hi,
        lo <= q <= hi,
    ensures
        lo * (a + b) <= a * p + b * q <= hi * (a + b),
{
}

/// Every element is smaller than each one after it.
pub open spec fn strictly_increasing(s: Seq<i32>) -> bool {
    forall|i: int, j: int| 0 <= i < j < s.len() ==> s[i] < s[j]
}

/// `t` lies within the span of the samples `s`, both ends included.
pub open spec fn in_span(s: Seq<i32>, t: int) -> bool {
    s.len() >= 2 && s[0] <= t <= s[s.len() - 1]
}

/// `i` is the interval of `s` that holds `t`: intervals are closed below and
/// open above, except the last one, which is closed on both ends.
pub open spec fn in_cell(s: Seq<i32>, i: int, t: int) -> bool {
    &&& 0 <= i < s.len() - 1
    &&& s[i] <= t
    &&& (t < s[i + 1] || (i == s.len() - 2 && t == s[i + 1]))
}

/// The interval of `s` that holds `t`: the last lower bound not above `t`.
pub open spec fn cell_index(s: Seq<i32>, t: int) -> int
    decreases s.len(),
{
    if s.len() <= 2 {
        0
    } else if s[s.len() - 2] <= t {
        s.len() - 2
    } else {
        cell_index(s.drop_last(), t)
    }
}

/// Within the span of increasing samples, `cell_index` names the interval
/// that holds `t`.
pub proof fn lemma_cell_index_holds(s: Seq<i32>, t: int)
    requires
        strictly_increasing(s),
        in_span(s, t),
    ensures
        in_cell(s, cell_index(s, t), t),
    decreases s.len(),
{
    if s.len() > 2 && s[s.len() - 2] > t {
        let p = s.drop_last();
        assert(strictly_increasing(p));
        lemma_cell_index_holds(p, t);
        assert(cell_index(p, t) + 1 < p.len());
    }
}

/// No two intervals of increasing samples hold the same point.
pub proof fn lemma_cell_unique(s: Seq<i32>, i: int, j: int, t: int)
    requires
        strictly_increasing(s),
        in_cell(s, i, t),
        in_cell(s, j, t),
    ensures
        i == j,
{
    if i < j {
        assert(s[i + 1] <= s[j]);
    } else if j < i {
        assert(s[j + 1] <= s[i]);
    }
}

/// Binary search for the interval of `array` that holds `target`.
pub fn find(array: &[i32], target: i32) -> (found: Option<usize>)
    requires
        strictly_increasing(array@),
    ensures
        found is Some <==> in_span(array@, target as int),
        found matches Some(i) ==> i as int == cell_index(array@, target as int),
        found matches Some(i) ==> in_cell(array@, i as int, target as int),
{
    let n: usize = array.len();
    if n < 2 || target < array[0] || target > array[n - 1] {
        return None;
    }
    let mut low: usize = 0;
    let mut high: usize = n - 1;
    while high - low > 1
        invariant
            n == array@.len(),
            0 <= low < high < n,
            array@[low as int] <= target,
            target < array@[high as int] || (high == n - 1 && target <= array@[high as int]),
            strictly_increasing(array@),
        decreases high - low,
    {
        let mid: usize = low + (high - low) / 2;
        if array[mid] <= target {
            low = mid;
        } else {
            high = mid;
        }
    }
    proof {
        if target == array@[n - 1] && low < n - 2 {
            assert(array@[low + 1] < array@[n - 1]);
        }
        lemma_cell_index_holds(array@, target as int);
        lemma_cell_unique(array@, low as int, cell_index(array@, target as int), target as int);
    }
    Some(low)
}

/// Why a height map cannot be built from a set of tables.
#[derive(Clone, Copy, Debug, PartialEq, Eq, Structural)]
pub enum HeightMapError {
    /// An axis has fewer than two sample coordinates.
    TooFewSamples,
    /// The sample coordinates of an axis do not strictly increase.
    NotIncreasing,
    /// The height table is not `x.len()` rows of `y.len()` heights.
    SizeMismatch,
}

/// Heights sampled on a grid whose lines need not be evenly spaced:
/// `z[i][j]` is the height above `(x[i], y[j])`.
#[derive(Clone, Debug)]
pub struct HeightMap {
    pub x: Vec<i32>,
    pub y: Vec<i32>,
    pub z: Vec<Vec<i32>>,
}

/// Every row of `z` holds `n` heights.
pub open spec fn rows_of_len(z: Seq<Vec<i32>>, n: int) -> bool {
    forall|i: int| 0 <= i < z.len() ==> (#[trigger] z[i])@.len() == n
}

/// The fault of the tables `x`, `y`, `z`, if they have one.
pub open spec fn tables_fault(x: Seq<i32>, y: Seq<i32>, z: Seq<Vec<i32>>) -> Option<
    HeightMapError,
> {
    if x.len() < 2 || y.len() < 2 {
        Some(HeightMapError::TooFewSamples)
    } else if !strictly_increasing(x) || !strictly_increasing(y) {
        Some(HeightMapError::NotIncreasing)
    } else if z.len() != x.len() || !rows_of_len(z, y.len() as int) {
        Some(HeightMapError::SizeMismatch)
    } else {
        None
    }
}

/// Tells whether the elements of `v` strictly increase.
pub fn is_strictly_increasing(v: &[i32]) -> (b: bool)
    ensures
        b == strictly_increasing(v@),
{
    let n: usize = v.len();
    if n < 2 {
        return true;
    }
    let mut k: usize = 1;
    while k < n
        invariant
            n == v@.len(),
            1 <= k <= n,
            forall|i: int, j: int| 0 <= i < j < k ==> v@[i] < v@[j],
        decreases n - k,
    {
        if v[k - 1] >= v[k] {
            return false;
        }
        k += 1;
    }
    true
}

/// Tells whether every row of `z` holds `n` heights.
pub fn has_rows_of_len(z: &Vec<Vec<i32>>, n: usize) -> (b: bool)
    ensures
        b == rows_of_len(z@, n as int),
{
    let mut k: usize = 0;
    while k < z.len()
        invariant
            k <= z@.len(),
            forall|i: int| 0 <= i < k ==> (#[trigger] z@[i])@.len() == n,
        decreases z@.len() - k,
    {
        if z[k].len() != n {
            return false;
        }
        k += 1;
    }
    true
}

impl HeightMap {
    /// Both axes have at least two strictly increasing sample coordinates,
    /// and the table has one height for each pair of them.
    pub open spec fn well_formed(&self) -> bool {
        tables_fault(self.x@, self.y@, self.z@) is None
    }

    /// `(x, y)` lies within the sampled range on both axes.
    pub open spec fn covers(&self, x: int, y: int) -> bool {
        in_span(self.x@, x) && in_span(self.y@, y)
    }

    /// The grid cell whose lower corner is the sample `(i, j)`.
    pub open spec fn cell(&self, i: int, j: int) -> Cell {
        Cell {
            x1: self.x@[i],
            x2: self.x@[i + 1],
            y1: self.y@[j],
            y2: self.y@[j + 1],
            q11: self.z@[i]@[j],
            q12: self.z@[i]@[j + 1],
            q21: self.z@[i + 1]@[j],
            q22: self.z@[i + 1]@[j + 1],
        }
    }

    /// The cell in which `(x, y)` is interpolated.
    pub open spec fn cell_of(&self, x: int, y: int) -> Cell {
        self.cell(cell_index(self.x@, x), cell_index(self.y@, y))
    }

    /// The height of the surface above a covered point.
    pub open spec fn height_at(&self, x: int, y: int) -> int {
        self.cell_of(x, y).interpolate_spec(x, y)
    }

    /// Builds a height map, or says what is wrong with the tables.
    pub fn new(x: Vec<i32>, y: Vec<i32>, z: Vec<Vec<i32>>) -> (r: Result<HeightMap, HeightMapError>)
        ensures
            match r {
                Ok(m) => tables_fault(x@, y@, z@) is None && m.x == x && m.y == y && m.z == z
                    && m.well_formed(),
                Err(e) => tables_fault(x@, y@, z@) == Some(e),
            },
    {
        if x.len() < 2 || y.len() < 2 {
            return Err(HeightMapError::TooFewSamples);
        }
        if !is_strictly_increasing(x.as_slice()) || !is_strictly_increasing(y.as_slice()) {
            return Err(HeightMapError::NotIncreasing);
        }
        if z.len() != x.len() || !has_rows_of_len(&z, y.len()) {
            return Err(HeightMapError::SizeMismatch);
        }
        Ok(HeightMap { x, y, z })
    }

    /// Tells whether the tables form a well-formed height map.
    pub fn is_well_formed(&self) -> (b: bool)
        ensures
            b == self.well_formed(),
    {
        self.x.len() >= 2 && self.y.len() >= 2 && is_strictly_increasing(self.x.as_slice())
            && is_strictly_increasing(self.y.as_slice()) && self.z.len() == self.x.len()
            && has_rows_of_len(&self.z, self.y.len())
    }

    /// The cell whose lower corner is the sample `(i, j)`.
    pub fn cell_at(&self, i: usize, j: usize) -> (c: Cell)
        requires
            self.well_formed(),
            i + 1 < self.x@.len(),
            j + 1 < self.y@.len(),
        ensures
            c == self.cell(i as int, j as int),
            c.well_formed(),
    {
        let nx: usize = self.x.len();
        let ny: usize = self.y.len();
        assert(self.z@[i as int]@.len() == ny && self.z@[i + 1]@.len() == ny);
        Cell {
            x1: self.x[i],
            x2: self.x[i + 1],
            y1: self.y[j],
            y2: self.y[j + 1],
            q11: self.z[i][j],
            q12: self.z[i][j + 1],
            q21: self.z[i + 1][j],
            q22: self.z[i + 1][j + 1],
        }
    }

    /// The height of the surface above `(x, y)` by bilinear interpolation
    /// between the four surrounding samples, or `None` where the point lies
    /// outside the sampled range on either axis.
    pub fn height(&self, x: i32, y: i32) -> (r: Option<i32>)
        requires
            self.well_formed(),
        ensures
            r is Some <==> self.covers(x as int, y as int),
            r matches Some(h) ==> h as int == self.height_at(x as int, y as int),
            r matches Some(h) ==> self.cell_of(x as int, y as int).lowest() <= h as int
                <= self.cell_of(x as int, y as int).highest(),
    {
        let x_ind: usize = match find(self.x.as_slice(), x) {
            Some(i) => i,
            None => {
                return None;
            },
        };
        let y_ind: usize = match find(self.y.as_slice(), y) {
            Some(j) => j,
            None => {
                return None;
            },
        };
        let cell = self.cell_at(x_ind, y_ind);
        Some(cell.interpolate(x, y))
    }

    /// The cell in which a covered point is interpolated holds the point.
    pub proof fn lemma_cell_of_holds(&self, x: int, y: int)
        requires
            self.well_formed(),
            self.covers(x, y),
        ensures
            0 <= cell_index(self.x@, x) < self.x@.len() - 1,
            0 <= cell_index(self.y@, y) < self.y@.len() - 1,
            self.cell_of(x, y).well_formed(),
            self.cell_of(x, y).holds(x, y),
    {
        lemma_cell_index_holds(self.x@, x);
        lemma_cell_index_holds(self.y@, y);
    }

    /// The height above a covered point lies between the lowest and the
    /// highest of the four samples that enclose it.
    pub proof fn lemma_height_within_samples(&self, x: int, y: int)
        requires
            self.well_formed(),
            self.covers(x, y),
        ensures
            self.cell_of(x, y).lowest() <= self.height_at(x, y) <= self.cell_of(x, y).highest(),
    {
        self.lemma_cell_of_holds(x, y);
        self.cell_of(x, y).lemma_interpolate_within_corners(x, y);
    }

    /// Two cells that share an edge across the x axis interpolate the same
    /// height along that edge.
    pub proof fn lemma_shared_edge_x(&self, i: int, j: int, y: int)
        requires
            self.well_formed(),
            0 <= i < self.x@.len() - 2,
            0 <= j < self.y@.len() - 1,
        ensures
            self.cell(i, j).interpolate_spec(self.x@[i + 1] as int, y) == self.cell(
                i + 1,
                j,
            ).interpolate_spec(self.x@[i + 1] as int, y),
    {
        self.cell(i, j).lemma_on_upper_x(y);
        self.cell(i + 1, j).lemma_on_lower_x(y);
    }

    /// Two cells that share an edge across the y axis interpolate the same
    /// height along that edge.
    pub proof fn lemma_shared_edge_y(&self, i: int, j: int, x: int)
        requires
            self.well_formed(),
            0 <= i < self.x@.len() - 1,
            0 <= j < self.y@.len() - 2,
        ensures
            self.cell(i, j).interpolate_spec(x, self.y@[j + 1] as int) == self.cell(
                i,
                j + 1,
            ).interpolate_spec(x, self.y@[j + 1] as int),
    {
        self.cell(i, j).lemma_on_upper_y(x);
        self.cell(i, j + 1).lemma_on_lower_y(x);
    }

    /// The surface is continuous across cell borders: every cell that holds
    /// a point, on its border or inside, interpolates the height that
    /// `height` reports there.
    pub proof fn lemma_height_continuous(&self, i: int, j: int, x: int, y: int)
        requires
            self.well_formed(),
            0 <= i < self.x@.len() - 1,
            0 <= j < self.y@.len() - 1,
            self.cell(i, j).holds(x, y),
        ensures
            self.covers(x, y),
            self.cell(i, j).interpolate_spec(x, y) == self.height_at(x, y),
    {
        let xs = self.x@;
        let ys = self.y@;
        assert(xs[0] <= xs[i] && xs[i + 1] <= xs[xs.len() - 1]);
        assert(ys[0] <= ys[j] && ys[j + 1] <= ys[ys.len() - 1]);
        let ci = cell_index(xs, x);
        let cj = cell_index(ys, y);
        lemma_cell_index_holds(xs, x);
        lemma_cell_index_holds(ys, y);
        if in_cell(xs, i, x) {
            lemma_cell_unique(xs, i, ci, x);
        } else {
            lemma_cell_unique(xs, i + 1, ci, x);
            self.lemma_shared_edge_x(i, j, y);
        }
        if in_cell(ys, j, y) {
            lemma_cell_unique(ys, j, cj, y);
        } else {
            lemma_cell_unique(ys, j + 1, cj, y);
            self.lemma_shared_edge_y(ci, j, x);
        }
    }

    /// One step along x within a cell changes the height by no more than the
    /// steepest edge of that cell along x rises per step, and one more for
    /// rounding; so does a step that lands on or leaves from its border.
    pub proof fn lemma_height_step_x(&self, i: int, j: int, x: int, y: int)
        requires
            self.well_formed(),
            0 <= i < self.x@.len() - 1,
            0 <= j < self.y@.len() - 1,
            self.cell(i, j).holds(x, y),
            self.cell(i, j).holds(x + 1, y),
        ensures
            -(self.cell(i, j).steepness_x() + 1) <= self.height_at(x + 1, y) - self.height_at(x, y)
                <= self.cell(i, j).steepness_x() + 1,
    {
        self.lemma_height_continuous(i, j, x, y);
        self.lemma_height_continuous(i, j, x + 1, y);
        self.cell(i, j).lemma_step_along_x(x, y);
    }

    /// One step along y within a cell changes the height by no more than the
    /// steepest edge of that cell along y rises per step, and one more for
    /// rounding; so does a step that lands on or leaves from its border.
    pub proof fn lemma_height_step_y(&self, i: int, j: int, x: int, y: int)
        requires
            self.well_formed(),
            0 <= i < self.x@.len() - 1,
            0 <= j < self.y@.len() - 1,
            self.cell(i, j).holds(x, y),
            self.cell(i, j).holds(x, y + 1),
        ensures
            -(self.cell(i, j).steepness_y() + 1) <= self.height_at(x, y + 1) - self.height_at(x, y)
                <= self.cell(i, j).steepness_y() + 1,
    {
        self.lemma_height_continuous(i, j, x, y);
        self.lemma_height_continuous(i, j, x, y + 1);
        self.cell(i, j).lemma_step_along_y(x, y);
    }

    /// Above a sample coordinate pair the surface has the sampled height.
    pub proof fn lemma_height_at_sample(&self, i: int, j: int)
        requires
            self.well_formed(),
            0 <= i < self.x@.len(),
            0 <= j < self.y@.len(),
        ensures
            self.covers(self.x@[i] as int, self.y@[j] as int),
            self.height_at(self.x@[i] as int, self.y@[j] as int) == self.z@[i]@[j],
    {
        let ci = if i == self.x@.len() - 1 { i - 1 } else { i };
        let cj = if j == self.y@.len() - 1 { j - 1 } else { j };
        self.cell(ci, cj).lemma_at_corners();
        self.lemma_height_continuous(ci, cj, self.x@[i] as int, self.y@[j] as int);
    }
}

/// The cross product of the edge from `p` to `px` with the edge from `p` to
/// `py`.
pub open spec fn edge_cross(p: Vector, px: Vector, py: Vector) -> Normal {
    let u0 = px.x - p.x;
    let u1 = px.y - p.y;
    let u2 = px.z - p.z;
    let v0 = py.x - p.x;
    let v1 = py.y - p.y;
    let v2 = py.z - p.z;
    Normal {
        x: (u1 * v2 - u2 * v1) as i128,
        y: (u2 * v0 - u0 * v2) as i128,
        z: (u0 * v1 - u1 * v0) as i128,
    }
}

/// The cross product of the edge from `p` to `px` with the edge from `p` to
/// `py`, without rounding.
pub fn edge_cross_of(p: Vector, px: Vector, py: Vector) -> (n: Normal)
    ensures
        n == edge_cross(p, px, py),
{
    let u0: i128 = px.x as i128 - p.x as i128;
    let u1: i128 = px.y as i128 - p.y as i128;
    let u2: i128 = px.z as i128 - p.z as i128;
    let v0: i128 = py.x as i128 - p.x as i128;
    let v1: i128 = py.y as i128 - p.y as i128;
    let v2: i128 = py.z as i128 - p.z as i128;
    proof {
        let w: int = 0x1_0000_0000;
        lemma_mul_bounds(u1 as int, v2 as int, w, w);
        lemma_mul_bounds(u2 as int, v1 as int, w, w);
        lemma_mul_bounds(u2 as int, v0 as int, w, w);
        lemma_mul_bounds(u0 as int, v2 as int, w, w);
        lemma_mul_bounds(u0 as int, v1 as int, w, w);
        lemma_mul_bounds(u1 as int, v0 as int, w, w);
    }
    Normal { x: u1 * v2 - u2 * v1, y: u2 * v0 - u0 * v2, z: u0 * v1 - u1 * v0 }
}

impl HeightMap {
    /// The sample at grid position `(i, j)` as a point in space.
    pub open spec fn sample(&self, i: int, j: int) -> Vector {
        Vector { x: self.x@[i], y: self.y@[j], z: self.z@[i]@[j] }
    }

    /// The normal of the mesh at the sample `(i, j)`: the cross product of
    /// the edges to the next sample along x and to the next one along y.
    /// A sample on the far border has no such neighbour on one axis or on
    /// both, and gets the fixed downward normal instead.
    pub open spec fn vertex_normal(&self, i: int, j: int) -> Normal {
        if i + 1 < self.x@.len() && j + 1 < self.y@.len() {
            edge_cross(self.sample(i, j), self.sample(i + 1, j), self.sample(i, j + 1))
        } else {
            Normal::down()
        }
    }

    /// The normals of the mesh at all samples.
    pub fn vertex_normals(&self) -> (table: Vec<Vec<Normal>>)
        requires
            self.well_formed(),
        ensures
            is_table(table@, self.x@.len() as int, self.y@.len() as int),
            forall|i: int, j: int|
                0 <= i < self.x@.len() && 0 <= j < self.y@.len() ==> (#[trigger] table@[i]@[j])
                    == self.vertex_normal(i, j),
    {
        let columns: usize = self.x.len();
        let rows: usize = self.y.len();
        let mut table: Vec<Vec<Normal>> = Vec::new();
        let mut i: usize = 0;
        while i < columns
            invariant
                self.well_formed(),
                columns == self.x@.len(),
                rows == self.y@.len(),
                i <= columns,
                table@.len() == i,
                forall|a: int| 0 <= a < i ==> (#[trigger] table@[a])@.len() == rows,
                forall|a: int, b: int|
                    0 <= a < i && 0 <= b < rows ==> (#[trigger] table@[a]@[b])
                        == self.vertex_normal(a, b),
            decreases columns - i,
        {
            let mut row: Vec<Normal> = Vec::new();
            let mut j: usize = 0;
            while j < rows
                invariant
                    self.well_formed(),
                    columns == self.x@.len(),
                    rows == self.y@.len(),
                    i < columns,
                    j <= rows,
                    row@.len() == j,
                    forall|b: int| 0 <= b < j ==> row@[b] == self.vertex_normal(i as int, b),
                decreases rows - j,
            {
                if i + 1 < columns && j + 1 < rows {
                    assert(self.z@[i as int]@.len() == rows && self.z@[i + 1]@.len() == rows);
                    let p = Vector { x: self.x[i], y: self.y[j], z: self.z[i][j] };
                    let px = Vector { x: self.x[i + 1], y: self.y[j], z: self.z[i + 1][j] };
                    let py = Vector { x: self.x[i], y: self.y[j + 1], z: self.z[i][j + 1] };
                    row.push(edge_cross_of(p, px, py));
                } else {
                    row.push(Normal::down());
                }
                j += 1;
            }
            table.push(row);
            i += 1;
        }
        table
    }
}

/// A tile whose surface is a height map, such as one drawn from coherent
/// noise. The mesh has one vertex for each sample of the map.
#[derive(Clone, Debug)]
pub struct Perlin {
    pub size: [i32; 2],
    pub subdivisions: u32,
    pub heightmap: HeightMap,
}

impl Perlin {
    /// The height map is well formed and has `subdivisions + 2` samples on
    /// each axis, few enough to number the vertices of the mesh in 32 bits.
    pub open spec fn well_formed(&self) -> bool {
        &&& self.heightmap.well_formed()
        &&& self.subdivisions <= MAX_SUBDIVISIONS
        &&& self.heightmap.x@.len() == self.subdivisions + 2
        &&& self.heightmap.y@.len() == self.subdivisions + 2
    }

    /// The height of the surface above `(x, y)`, where the height map covers
    /// the point.
    pub open spec fn surface(&self, x: int, y: int) -> Option<int> {
        if self.heightmap.covers(x, y) {
            Some(self.heightmap.height_at(x, y))
        } else {
            None
        }
    }

    /// Tells whether the tile is well formed.
    pub fn is_well_formed(&self) -> (b: bool)
        ensures
            b == self.well_formed(),
    {
        self.heightmap.is_well_formed() && self.subdivisions <= MAX_SUBDIVISIONS
            && self.heightmap.x.len() == self.subdivisions as usize + 2 && self.heightmap.y.len()
            == self.subdivisions as usize + 2
    }

    /// A point collides where the height map covers it and it lies below
    /// the interpolated surface. A point that the map does not cover meets
    /// no ground.
    pub fn interference(&self, point: Vector) -> (r: Option<Interference>)
        requires
            self.well_formed(),
        ensures
            r == contact(self.surface(point.x as int, point.y as int), Normal::up(), point),
            !self.heightmap.covers(point.x as int, point.y as int) ==> r is None,
            r matches Some(hit) ==> crate::lies_above(hit, point),
    {
        match self.heightmap.height(point.x, point.y) {
            Some(ground) => contact_at(ground, Normal::up(), point),
            None => None,
        }
    }

    /// `mesh` is the mesh of the tile: the grid over the sample
    /// coordinates, with the sample, its normal and its texture coordinates
    /// at each vertex.
    pub open spec fn is_mesh(&self, mesh: Mesh) -> bool {
        &&& mesh.spans_grid(self.heightmap.x@, self.heightmap.y@)
        &&& mesh.normals@.len() == mesh.positions@.len()
        &&& mesh.uvs@.len() == mesh.positions@.len()
        &&& forall|k: int|
            #![trigger mesh.positions@[k]]
            #![trigger mesh.normals@[k]]
            #![trigger mesh.uvs@[k]]
            0 <= k < mesh.positions@.len() ==> {
                let i = k / (self.heightmap.y@.len() as int);
                let j = k % (self.heightmap.y@.len() as int);
                &&& mesh.positions@[k] == self.heightmap.sample(i, j)
                &&& mesh.normals@[k] == self.heightmap.vertex_normal(i, j)
                &&& mesh.uvs@[k] == grid_uv(
                    self.heightmap.x@.len() as int,
                    self.heightmap.y@.len() as int,
                    i,
                    j,
                    false,
                )
            }
    }

    /// The mesh of the tile, with one vertex at each sample of the height
    /// map: the surface that `interference` tests passes through every
    /// vertex.
    pub fn mesh(&self) -> (mesh: Mesh)
        requires
            self.well_formed(),
        ensures
            mesh.well_formed(),
            self.is_mesh(mesh),
            mesh.spans_grid(self.heightmap.x@, self.heightmap.y@),
            mesh.positions@.len() == (self.subdivisions + 2) * (self.subdivisions + 2),
            mesh.indices@.len() == (self.subdivisions + 1) * (self.subdivisions + 1) * 6,
            mesh.counter_clockwise(),
            forall|k: int|
                0 <= k < mesh.positions@.len() ==> self.surface(
                    (#[trigger] mesh.positions@[k]).x as int,
                    mesh.positions@[k].y as int,
                ) == Some(mesh.positions@[k].z as int),
            forall|k: int|
                #![trigger mesh.positions@[k]]
                #![trigger mesh.normals@[k]]
                #![trigger mesh.uvs@[k]]
                0 <= k < mesh.positions@.len() ==> {
                    let i = k / (self.subdivisions + 2);
                    let j = k % (self.subdivisions + 2);
                    &&& mesh.positions@[k] == self.heightmap.sample(i, j)
                    &&& mesh.normals@[k] == self.heightmap.vertex_normal(i, j)
                    &&& mesh.uvs@[k] == grid_uv(
                        self.subdivisions + 2,
                        self.subdivisions + 2,
                        i,
                        j,
                        false,
                    )
                },
    {
        let normals = self.heightmap.vertex_normals();
        proof {
            let count = self.subdivisions + 2;
            assert(count * count <= 0x1_0000_0000) by (nonlinear_arith)
                requires
                    0 <= count <= 65536,
            ;
        }
        let mesh = assemble(&self.heightmap.x, &self.heightmap.y, &self.heightmap.z, &normals, false);
        proof {
            let count = self.subdivisions + 2;
            mesh.lemma_grid_counter_clockwise(self.heightmap.x@, self.heightmap.y@);
            assert(mesh.indices@.len() == (count - 1) * (count - 1) * 6);
            assert forall|k: int| 0 <= k < mesh.positions@.len() implies {
                let i = k / count;
                let j = k % count;
                &&& (#[trigger] mesh.positions@[k]) == self.heightmap.sample(i, j)
                &&& mesh.normals@[k] == self.heightmap.vertex_normal(i, j)
                &&& self.surface(mesh.positions@[k].x as int, mesh.positions@[k].y as int) == Some(
                    mesh.positions@[k].z as int,
                )
            } by {
                lemma_vertex_position(count, count, k);
                self.heightmap.lemma_height_at_sample(k / count, k % count);
            }
        }
        mesh
    }
}

/// The two height maps hold the same tables.
pub open spec fn same_tables(a: HeightMap, b: HeightMap) -> bool {
    &&& a.x@ == b.x@
    &&& a.y@ == b.y@
    &&& a.z@.len() == b.z@.len()
    &&& forall|i: int| 0 <= i < a.z@.len() ==> (#[trigger] a.z@[i])@ == b.z@[i]@
}

/// Height maps that hold the same tables have the same surface.
pub proof fn lemma_same_surface(a: HeightMap, b: HeightMap, x: int, y: int)
    requires
        a.well_formed(),
        same_tables(a, b),
    ensures
        b.well_formed(),
        a.covers(x, y) == b.covers(x, y),
        a.covers(x, y) ==> a.height_at(x, y) == b.height_at(x, y),
{
    assert forall|i: int| 0 <= i < b.z@.len() implies (#[trigger] b.z@[i])@.len() == b.y@.len() by {
        assert(a.z@[i]@ == b.z@[i]@);
    }
    if a.covers(x, y) {
        a.lemma_cell_of_holds(x, y);
        let i = cell_index(a.x@, x);
        let j = cell_index(a.y@, y);
        assert(a.z@[i]@ == b.z@[i]@);
        assert(a.z@[i + 1]@ == b.z@[i + 1]@);
        assert(a.cell(i, j) == b.cell(i, j));
    }
}

/// Tiles whose height maps hold the same tables have the same mesh.
pub proof fn lemma_same_mesh(a: Perlin, mesh_a: Mesh, b: Perlin, mesh_b: Mesh)
    requires
        a.well_formed(),
        same_tables(a.heightmap, b.heightmap),
        a.is_mesh(mesh_a),
        b.is_mesh(mesh_b),
    ensures
        mesh_a.positions@ == mesh_b.positions@,
        mesh_a.normals@ == mesh_b.normals@,
        mesh_a.uvs@ == mesh_b.uvs@,
        mesh_a.indices@ == mesh_b.indices@,
{
    let columns = a.heightmap.x@.len() as int;
    let rows = a.heightmap.y@.len() as int;
    assert forall|k: int| 0 <= k < mesh_a.positions@.len() implies mesh_a.positions@[k]
        == mesh_b.positions@[k] && mesh_a.normals@[k] == mesh_b.normals@[k] && mesh_a.uvs@[k]
        == mesh_b.uvs@[k] by {
        lemma_vertex_position(columns, rows, k);
        let i = k / rows;
        let j = k % rows;
        assert(a.heightmap.z@[i]@ == b.heightmap.z@[i]@);
        if i + 1 < columns {
            assert(a.heightmap.z@[i + 1]@ == b.heightmap.z@[i + 1]@);
        }
    }
    assert(mesh_a.positions@ =~= mesh_b.positions@);
    assert(mesh_a.normals@ =~= mesh_b.normals@);
    assert(mesh_a.uvs@ =~= mesh_b.uvs@);
}

} // verus!
