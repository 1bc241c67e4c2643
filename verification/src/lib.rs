//! The exact, integer side of a recursive ray tracer: the pixel grid, its
//! scan by a camera and its plain-text image encoding, the ordered
//! collection of ray/surface intersections with hit selection, the stack of
//! refracting bodies, shadow occluders, the cells of patterns, the
//! bookkeeping of cofactor expansion and the recursion budget.
//!
//! Every quantity here is an integer. A ray parameter is held as an `i64`
//! key: keys are less, equal or greater as the parameters are, and the key
//! of the parameter zero is zero. Bodies and materials are held as `usize`
//! keys, equal keys meaning equal bodies or materials. A colour is held on
//! the scale of the image file, in 255ths of full intensity.

pub mod camera;
pub mod canvas;
pub mod color;
pub mod intersections;
pub mod matrix;
pub mod pattern;
pub mod world;
