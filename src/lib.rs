use vstd::prelude::*;

pub mod escape;
pub mod hud;
pub mod options;
pub mod raster;

verus! {

/// Ceiling on the escape-time iteration count of one pixel.
pub const ITER_LIMIT: u32 = 300;

/// Number of pixels evaluated together as one group.
pub const NUM_LANES: usize = 8;

} // verus!
