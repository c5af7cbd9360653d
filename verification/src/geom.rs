//! Geometry in logical pixels: points, sizes and four-sided offsets,
//! together with the saturating arithmetic the layout passes use.

use vstd::prelude::*;

verus! {

/// Marker for the logical-pixel unit in which every length here is measured.
pub struct LogicalPixel;

/// Largest representable length; saturating arithmetic clamps here.
pub const MAX_LENGTH: u64 = u64::MAX;

/// Sum of two lengths, clamped to `MAX_LENGTH`.
pub open spec fn sat_add(a: int, b: int) -> int {
    if a + b > MAX_LENGTH { MAX_LENGTH as int } else { a + b }
}

/// Difference of two lengths, clamped to zero.
pub open spec fn sat_sub(a: int, b: int) -> int {
    if a >= b { a - b } else { 0 }
}

/// The larger of two lengths.
pub open spec fn max_len(a: int, b: int) -> int {
    if a >= b { a } else { b }
}

/// Saturating addition on lengths.
pub fn add_len(a: u64, b: u64) -> (r: u64)
    ensures
        r == sat_add(a as int, b as int),
{
    if a <= u64::MAX - b {
        a + b
    } else {
        u64::MAX
    }
}

/// Saturating subtraction on lengths.
pub fn sub_len(a: u64, b: u64) -> (r: u64)
    ensures
        r == sat_sub(a as int, b as int),
{
    if a >= b {
        a - b
    } else {
        0
    }
}

/// The larger of two lengths, as executable code.
pub fn max_of(a: u64, b: u64) -> (r: u64)
    ensures
        r == max_len(a as int, b as int),
{
    if a >= b {
        a
    } else {
        b
    }
}

/// A position in logical pixels, relative to the parent's content box.
#[derive(Clone, Copy, PartialEq, Eq, Structural, Debug)]
pub struct LogicalPoint {
    pub x: u64,
    pub y: u64,
}

/// A width and height in logical pixels.
#[derive(Clone, Copy, PartialEq, Eq, Structural, Debug)]
pub struct LogicalSize {
    pub width: u64,
    pub height: u64,
}

/// Offsets on the four sides of a box, in logical pixels.
#[derive(Clone, Copy, PartialEq, Eq, Structural, Debug)]
pub struct LogicalSideOffsets {
    pub top: u64,
    pub right: u64,
    pub bottom: u64,
    pub left: u64,
}

impl LogicalPoint {
    pub fn new(x: u64, y: u64) -> (r: LogicalPoint)
        ensures
            r.x == x && r.y == y,
    {
        LogicalPoint { x, y }
    }
}

impl LogicalSize {
    pub fn new(width: u64, height: u64) -> (r: LogicalSize)
        ensures
            r.width == width && r.height == height,
    {
        LogicalSize { width, height }
    }
}

impl LogicalSideOffsets {
    pub fn new(top: u64, right: u64, bottom: u64, left: u64) -> (r: LogicalSideOffsets)
        ensures
            r.top == top && r.right == right && r.bottom == bottom && r.left == left,
    {
        LogicalSideOffsets { top, right, bottom, left }
    }

    /// Offsets that are zero on all four sides.
    pub fn zero() -> (r: LogicalSideOffsets)
        ensures
            r.top == 0 && r.right == 0 && r.bottom == 0 && r.left == 0,
    {
        LogicalSideOffsets { top: 0, right: 0, bottom: 0, left: 0 }
    }

    /// The left and right offsets taken together.
    pub open spec fn spec_horizontal(self) -> int {
        sat_add(self.left as int, self.right as int)
    }

    /// The top and bottom offsets taken together.
    pub open spec fn spec_vertical(self) -> int {
        sat_add(self.top as int, self.bottom as int)
    }

    pub fn horizontal(&self) -> (r: u64)
        ensures
            r == self.spec_horizontal(),
    {
        add_len(self.left, self.right)
    }

    pub fn vertical(&self) -> (r: u64)
        ensures
            r == self.spec_vertical(),
    {
        add_len(self.top, self.bottom)
    }
}

} // verus!
