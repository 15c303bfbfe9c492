//! Image values and the vision routines that work on them.

pub mod crop;
pub mod draw;
pub mod frame;
pub mod laser;
pub mod raster;
