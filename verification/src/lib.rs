//! The integer core of a software rasterizer, verified with Verus.
//!
//! A 3D pipeline that draws on the CPU ends in work on whole numbers:
//! indexed meshes, pixel positions, depths and packed colours. This crate
//! holds that work and proves what it does.
//!
//! - [`mesh`]: indexed triangle meshes, generic over the vertex type, and
//!   the built-in shapes on the integer lattice.
//! - [`barycentric`]: exact barycentric weights of pixel-grid points.
//! - [`line`]: which pixels a rasterized line segment consists of.
//! - [`frame`]: the pixel and depth buffer as mathematical values, what
//!   every drawing operation does to them, and what follows from that.
//! - [`renderer`]: the renderer itself: `clear`, `set_pixel`, `draw_line`
//!   and the depth-tested `draw_triangle`.
//! - [`scene`]: the drawing pass over the triangles of an object.
//! - [`color`]: packing and unpacking of `0xAARRGGBB` colours.
//! - [`input`]: keyboard and mouse state for the window that shows the
//!   picture.
//!
//! Positions on the screen are points of the pixel grid and depths are
//! unsigned numbers, smaller for what is nearer. Transforms, projection and
//! shading, which need fractions, are the caller's.

pub mod barycentric;
pub mod color;
pub mod frame;
pub mod input;
pub mod line;
pub mod mesh;
pub mod renderer;
pub mod scene;
