//! Renders a sequence of arbitrary-precision naturals as a bitmap: one column
//! per number, one pixel per binary digit, most significant digit on top.
//!
//! The crate holds the geometry and the state of the viewer: the pixel
//! buffer, the pan/zoom state, the projection of the visible window onto a
//! display, and the overview strip. Drawing and input are left to the caller.

pub mod bignum;
pub mod matrix;
pub mod viewport;
pub mod scale;
pub mod projector;
pub mod minimap;
pub mod input;
