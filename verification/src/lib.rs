//! A small Whitted-style ray tracer over a fixed-point scalar type.
//!
//! Geometry, colors and shading are computed in decimal fixed point so that
//! every arithmetic step has an exact mathematical description; the renderer
//! is specified and verified against that model down to the output bytes.
//!
//! The `fixed` module holds the scalar type and its saturating, truncating
//! arithmetic; `geometry` the points, rays and vector operations; `color`
//! linear-light colors and their display encoding; `shapes` the sphere and
//! plane primitives with their intersection tests; `render` the scene
//! types, hit resolution, recursive shading and image assembly; and
//! `scenes` the hand-built demonstration scenes.

use vstd::prelude::*;

pub mod color;
pub mod fixed;
pub mod geometry;
pub mod render;
pub mod scenes;
pub mod shapes;

verus! {

} // verus!
