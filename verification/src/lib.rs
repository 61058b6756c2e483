//! Verified core of a Mandelbrot-set renderer.
//!
//! The library holds the parts of the renderer that carry the real
//! invariants: the row-major raster layout, the grayscale intensity rule,
//! the partition of the image into disjoint horizontal bands for parallel
//! rendering, and the pair parser for command-line coordinates. The
//! floating-point escape-time iteration and the image encoding live with
//! the binary that drives this library.

pub mod bands;
pub mod parse;
pub mod raster;
pub mod render;

pub use parse::parse_pair;
pub use raster::alloc_buffer;
pub use raster::intensity;
pub use raster::pixel_index;
pub use render::render_band;
pub use render::render_banded;
