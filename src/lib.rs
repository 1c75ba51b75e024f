//! Wireframe rendering with a pin-hole camera, in exact integer arithmetic.
//!
//! World points are projected through the pin-hole onto a screen given by its
//! corners (`camera`), the resulting fractions are scaled to pixels
//! (`ratio`), and each pixel of a frame is tested against every projected
//! edge (`raster`, `frame`). `laws` holds properties of the projection.
use vstd::prelude::*;

pub mod camera;
pub mod frame;
pub mod laws;
pub mod raster;
pub mod ratio;
pub mod vec3;

verus! {

} // verus!
