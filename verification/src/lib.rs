//! Escape-time fractal rendering: palettes, per-pixel escape traces, colour
//! resolution, scan lines, and the row-ordered pixel buffer that an image
//! encoder consumes.
//!
//! The plane arithmetic itself is supplied by the caller, in a number type of
//! its choosing; this crate owns the control flow around it and proves what
//! that control flow returns.
//!
//! - [`arithmetic`]: the operations on coordinates that the caller supplies.
//! - [`point`]: a pair of coordinates, and where the coordinates stand in the
//!   text of a point.
//! - [`cmap`]: colours, the palette, and the text form of a colour map.
//! - [`util`]: from an iteration count or a continuous estimate to a colour.
//! - [`fractals`]: the escape-time trace and the three variants built on it.
//! - [`raster`]: the render configuration and the scan lines.
//! - [`buffer`]: the buffer that puts scan lines in row order and gives the
//!   image out as bytes.

pub mod arithmetic;
pub mod buffer;
pub mod cmap;
pub mod fractals;
pub mod point;
pub mod raster;
pub mod util;
