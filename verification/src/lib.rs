//! A pixel-buffer compositing engine.
//!
//! The crate owns an arena of frame buffers addressed by opaque handles and
//! implements the per-pixel numeric operations on them: allocate, load,
//! export, alpha compositing ("overlap"), bounds-clipped translation of a
//! canvas, and bilinear resampling.  On top of the buffers sits a surface
//! tree: a root surface owning a pixel store plus nested, clipped and offset
//! sub-surfaces that forward draw calls upward.

pub mod error;
pub mod backend;
pub mod canvas;
pub mod compose;
pub mod frame;
pub mod frontend;
pub mod resample;
pub mod representation;
pub mod surface;
pub mod threading;
