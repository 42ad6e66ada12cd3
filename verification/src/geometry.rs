//! Points and point identifiers.
//!
//! Coordinates are fixed-point integers: one geometric unit is
//! `UNIT` coordinate steps.  This keeps every coordinate an exact,
//! machine-checkable value while still leaving room for the sub-unit
//! precision that the snapping rule of [`crate::Builder::close`] depends on.

use vstd::prelude::*;

verus! {

/// Number of coordinate steps per geometric unit.
pub const UNIT: i64 = 1_000_000;

/// Snapping tolerance of [`crate::Builder::close`]: one ten-thousandth of a
/// unit, measured as an L1 (Manhattan) distance.
pub const SNAP_TOLERANCE: i64 = 100;

/// A 2D position with fixed-point coordinates.
#[derive(Clone, Copy, PartialEq, Eq, Structural, Debug)]
pub struct Point {
    pub x: i64,
    pub y: i64,
}

impl Point {
    /// Builds the point `(x, y)`.
    pub fn new(x: i64, y: i64) -> (p: Point)
        ensures
            p == (Point { x, y }),
    {
        Point { x, y }
    }
}

/// Shorthand constructor for [`Point`].
pub fn point(x: i64, y: i64) -> (p: Point)
    ensures
        p == (Point { x, y }),
{
    Point { x, y }
}

/// The origin, which is the initial current position of builders and
/// iterators.
pub open spec fn origin() -> Point {
    Point { x: 0, y: 0 }
}

/// Absolute value of a mathematical integer.
pub open spec fn abs_val(v: int) -> int {
    if v < 0 {
        -v
    } else {
        v
    }
}

/// Whether `a` lies strictly within the snapping tolerance of `b`, in L1
/// distance.
pub open spec fn l1_near(a: Point, b: Point) -> bool {
    abs_val(a.x - b.x) + abs_val(a.y - b.y) < SNAP_TOLERANCE
}

/// Runtime check for [`l1_near`].  Differences are widened to `i128`, so no
/// coordinate range restriction is needed.
pub fn l1_near_exec(a: Point, b: Point) -> (r: bool)
    ensures
        r == l1_near(a, b),
{
    let dx: i128 = a.x as i128 - b.x as i128;
    let dy: i128 = a.y as i128 - b.y as i128;
    let ax: i128 = if dx < 0 { -dx } else { dx };
    let ay: i128 = if dy < 0 { -dy } else { dy };
    ax + ay < SNAP_TOLERANCE as i128
}

/// Identifies an endpoint: an index into the points array of the path that
/// produced it, naming a point that starts or ends a drawn segment.
#[derive(Clone, Copy, PartialEq, Eq, Structural, Debug)]
pub struct EndpointId(pub u32);

impl EndpointId {
    /// The identifier as a points-array index.
    pub fn to_usize(self) -> (r: usize)
        ensures
            r == self.0,
    {
        self.0 as usize
    }
}

/// Identifies a Bézier control point: an index into the points array of the
/// path that produced it, naming an interior shaping point of a curve.
#[derive(Clone, Copy, PartialEq, Eq, Structural, Debug)]
pub struct CtrlPointId(pub u32);

impl CtrlPointId {
    /// The identifier as a points-array index.
    pub fn to_usize(self) -> (r: usize)
        ensures
            r == self.0,
    {
        self.0 as usize
    }
}

} // verus!
