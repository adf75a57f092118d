//! Turns per-attribute-indexed mesh data and skeletal poses, as exported from Blender,
//! into single-indexed vertex buffers and blended poses.
//!
//! Floating-point values are carried as their IEEE-754 single-precision bit patterns
//! (`u32`), so that the transforms that move, negate or rank them can be verified.
//!
//! - `combine_indices`: one index stream in place of the position, normal and uv streams
//! - `triangulate`: triangles and quads to triangles
//! - `groups`: the same number of bone influences for every vertex
//! - `coordinates`: Z-up to Y-up
//! - `pose`: pairing two poses' bones and choosing the shorter rotation path
//! - `blender_stdout`: framing the mesh blocks in Blender's output

pub mod float_bits;
pub mod vertex_attribute;
pub mod mesh;
pub mod combine_indices;
pub mod groups;
pub mod triangulate;
pub mod pose;
pub mod coordinates;
pub mod blender_stdout;
