//! Resolved style values as the layout passes consume them: a display
//! mode (block with direction, optional explicit size, margin and
//! padding, or inline) and the inherited text size.

use vstd::prelude::*;
use crate::geom::LogicalSideOffsets;

verus! {

/// Axis along which a block stacks its children.
#[derive(Clone, Copy, PartialEq, Eq, Structural, Debug)]
pub enum Direction {
    Vertical,
    Horizontal,
}

/// Style values of a block-level element.
#[derive(Clone, Copy, PartialEq, Eq, Structural, Debug)]
pub struct BlockValues {
    pub direction: Direction,
    /// Explicit width, which overrides the content width when present.
    pub width: Option<u64>,
    /// Explicit height, which overrides the content height when present.
    pub height: Option<u64>,
    pub margin: LogicalSideOffsets,
    pub padding: LogicalSideOffsets,
}

/// Display mode of an element.
#[derive(Clone, Copy, PartialEq, Eq, Structural, Debug)]
pub enum DisplayType {
    Block(BlockValues),
    Inline,
}

/// The resolved style of one element.
#[derive(Clone, Copy, PartialEq, Eq, Structural, Debug)]
pub struct ComputedValues {
    pub display: DisplayType,
    /// Inherited text size, in logical pixels.
    pub text_size: u64,
}

} // verus!
