//! An immutable two-dimensional point on the grid, measured as a column
//! (`width`) and a row (`height`), with component-wise arithmetic and a
//! verified distance comparison.
//!
//! Euclidean distance itself is irrational in general; every comparison the
//! queries need is decided on squared distances instead, which orders pairs
//! of points exactly as the Euclidean distance does because squaring is
//! strictly monotone on non-negative reals.

use vstd::prelude::*;

verus! {

/// A position within a two-dimensional map: `width` counts columns from the
/// left, `height` counts rows from the top.
#[derive(Debug, Clone, Copy, PartialEq, Eq, Structural)]
pub struct MapCoordinate {
    pub width: usize,
    pub height: usize,
}

/// The square of an integer.
pub open spec fn sq(x: int) -> int {
    x * x
}

/// The squared Euclidean distance between two coordinates.
pub open spec fn dist_sq(a: MapCoordinate, b: MapCoordinate) -> int {
    sq(a.width - b.width) + sq(a.height - b.height)
}

/// Distance is symmetric: measuring from either endpoint gives the same
/// squared distance, and hence the same Euclidean distance.
pub proof fn lemma_dist_sq_symmetric(a: MapCoordinate, b: MapCoordinate)
    ensures
        dist_sq(a, b) == dist_sq(b, a),
{
    assert(sq(a.width - b.width) == sq(b.width - a.width)) by (nonlinear_arith);
    assert(sq(a.height - b.height) == sq(b.height - a.height)) by (nonlinear_arith);
}

impl MapCoordinate {
    /// Creates a coordinate from a column and a row.
    pub fn new(width: usize, height: usize) -> (c: MapCoordinate)
        ensures
            c == (MapCoordinate { width, height }),
    {
        MapCoordinate { width, height }
    }

    /// The column component.
    pub fn get_width(&self) -> (w: usize)
        ensures
            w == self.width,
    {
        self.width
    }

    /// Replaces the column component.
    pub fn set_width(&mut self, width: usize)
        ensures
            *final(self) == (MapCoordinate { width, height: old(self).height }),
    {
        self.width = width;
    }

    /// The row component.
    pub fn get_height(&self) -> (h: usize)
        ensures
            h == self.height,
    {
        self.height
    }

    /// Replaces the row component.
    pub fn set_height(&mut self, height: usize)
        ensures
            *final(self) == (MapCoordinate { width: old(self).width, height }),
    {
        self.height = height;
    }

    /// Decides whether `self` lies strictly closer to `reference` than
    /// `other` does, in Euclidean distance.
    pub fn closer_than(&self, other: &MapCoordinate, reference: &MapCoordinate) -> (r: bool)
        ensures
            r == (dist_sq(*self, *reference) < dist_sq(*other, *reference)),
    {
        let (a0, a1) = dist_sq_parts(self, reference);
        let (b0, b1) = dist_sq_parts(other, reference);
        sum_lt(a0, a1, b0, b1)
    }
}

impl core::ops::Add for MapCoordinate {
    type Output = MapCoordinate;

    /// Component-wise addition. The caller is responsible for keeping both
    /// sums within `usize`.
    fn add(self, rhs: MapCoordinate) -> (r: MapCoordinate) {
        MapCoordinate { width: self.width + rhs.width, height: self.height + rhs.height }
    }
}

impl vstd::std_specs::ops::AddSpecImpl for MapCoordinate {
    open spec fn obeys_add_spec() -> bool {
        true
    }

    open spec fn add_req(self, rhs: MapCoordinate) -> bool {
        self.width + rhs.width <= usize::MAX && self.height + rhs.height <= usize::MAX
    }

    open spec fn add_spec(self, rhs: MapCoordinate) -> MapCoordinate {
        MapCoordinate {
            width: (self.width + rhs.width) as usize,
            height: (self.height + rhs.height) as usize,
        }
    }
}

impl core::ops::Sub for MapCoordinate {
    type Output = MapCoordinate;

    /// Component-wise subtraction. Only meaningful while both components
    /// stay non-negative; an underflow is a caller error, so the caller must
    /// keep both differences non-negative.
    fn sub(self, rhs: MapCoordinate) -> (r: MapCoordinate) {
        MapCoordinate { width: self.width - rhs.width, height: self.height - rhs.height }
    }
}

impl vstd::std_specs::ops::SubSpecImpl for MapCoordinate {
    open spec fn obeys_sub_spec() -> bool {
        true
    }

    open spec fn sub_req(self, rhs: MapCoordinate) -> bool {
        self.width >= rhs.width && self.height >= rhs.height
    }

    open spec fn sub_spec(self, rhs: MapCoordinate) -> MapCoordinate {
        MapCoordinate {
            width: (self.width - rhs.width) as usize,
            height: (self.height - rhs.height) as usize,
        }
    }
}

impl core::convert::From<(usize, usize)> for MapCoordinate {
    /// Reads a `(column, row)` pair as a coordinate.
    fn from(value: (usize, usize)) -> (r: MapCoordinate) {
        MapCoordinate { width: value.0, height: value.1 }
    }
}

impl vstd::std_specs::convert::FromSpecImpl<(usize, usize)> for MapCoordinate {
    open spec fn obeys_from_spec() -> bool {
        true
    }

    open spec fn from_spec(v: (usize, usize)) -> MapCoordinate {
        MapCoordinate { width: v.0, height: v.1 }
    }
}

impl core::convert::From<MapCoordinate> for (usize, usize) {
    /// Renders a coordinate as a `(column, row)` pair.
    fn from(value: MapCoordinate) -> (r: (usize, usize)) {
        (value.width, value.height)
    }
}

impl vstd::std_specs::convert::FromSpecImpl<MapCoordinate> for (usize, usize) {
    open spec fn obeys_from_spec() -> bool {
        true
    }

    open spec fn from_spec(v: MapCoordinate) -> (usize, usize) {
        (v.width, v.height)
    }
}

/// The two squared component differences of `dist_sq(*a, *b)`, each of which
/// fits in a `u128` even though their sum may not.
fn dist_sq_parts(a: &MapCoordinate, b: &MapCoordinate) -> (r: (u128, u128))
    ensures
        r.0 == sq(a.width - b.width),
        r.1 == sq(a.height - b.height),
        r.0 + r.1 == dist_sq(*a, *b),
{
    let dw = if a.width >= b.width {
        a.width - b.width
    } else {
        b.width - a.width
    };
    let dh = if a.height >= b.height {
        a.height - b.height
    } else {
        b.height - a.height
    };
    proof {
        lemma_abs_diff_sq(a.width as int, b.width as int, dw as int);
        lemma_abs_diff_sq(a.height as int, b.height as int, dh as int);
    }
    ((dw as u128) * (dw as u128), (dh as u128) * (dh as u128))
}

/// The square of the absolute difference equals the square of the difference,
/// and it fits in a `u128`.
proof fn lemma_abs_diff_sq(x: int, y: int, d: int)
    requires
        d == if x >= y { x - y } else { y - x },
        0 <= x <= u64::MAX,
        0 <= y <= u64::MAX,
    ensures
        d * d == sq(x - y),
        0 <= d * d <= u128::MAX,
{
    assert(d * d == (x - y) * (x - y)) by (nonlinear_arith)
        requires d == x - y || d == y - x;
    assert(d * d <= u64::MAX * u64::MAX) by (nonlinear_arith)
        requires 0 <= d <= u64::MAX;
}

/// Compares `a0 + a1` with `b0 + b1` without assuming that either sum fits
/// in a `u128`.
fn sum_lt(a0: u128, a1: u128, b0: u128, b1: u128) -> (r: bool)
    ensures
        r == (a0 + a1 < b0 + b1),
{
    let a_high = a1 > u128::MAX - a0;
    let b_high = b1 > u128::MAX - b0;
    if a_high != b_high {
        b_high
    } else if !a_high {
        a0 + a1 < b0 + b1
    } else {
        let a_low = a1 - (u128::MAX - a0) - 1;
        let b_low = b1 - (u128::MAX - b0) - 1;
        a_low < b_low
    }
}

} // verus!
