//! Sizes shared by the frame codec, the cover engine and the container codec.

use vstd::prelude::*;

verus! {

/// Length in bytes of the fixed frame header.
pub const HEADER_LEN: usize = 32;

/// Width of the cover raster in pixels.
pub const COVER_WIDTH: usize = 72;

/// Height of the cover raster in pixels.
pub const COVER_HEIGHT: usize = 72;

/// Length in bytes of the cover raster: four bytes for each pixel.
pub const COVER_LEN: usize = 20736;

/// Side of the square tiles that the cover engine permutes.
pub const BLOCK_SIZE: usize = 16;

/// Length in bytes of everything that precedes the payload in a frame.
pub const PREFIX_LEN: usize = 20768;

} // verus!
