//! A layout engine for a tree of styled elements: block stacking,
//! inline line-breaking with baseline alignment, greedy word fitting,
//! and memoization of unchanged block subtrees.
//!
//! All lengths are logical pixels, held as `u64` values; accumulations
//! saturate at `u64::MAX` instead of overflowing.

pub mod geom;
pub mod style;
pub mod text;
pub mod tree;
pub mod block;
pub mod inline;
pub mod engine;
pub mod windows;
