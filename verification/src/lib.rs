//! A primitive-batching renderer core.
//!
//! The crate turns an ordered stream of abstract drawing primitives
//! (rectangles, triangle batches, text runs, images, clip regions) into a
//! single interleaved vertex buffer plus a minimal ordered list of draw
//! commands, merging adjacent primitives that share draw state.  All scalar
//! quantities are carried in 16.16 fixed point so that every computation is
//! exact and reproducible; the GPU-facing shell converts them to floats at
//! the very edge.

pub mod fixed;
pub mod coords;
pub mod color;
pub mod image_table;
pub mod primitive;
pub mod glyph;
pub mod batcher;
pub mod renderer;

use vstd::prelude::*;

verus! {

/// One whole unit in 16.16 fixed-point representation.
pub const FX_ONE: i64 = 65536;

} // verus!
