//! Backdrop blur and cursor effects for a compositor: cursor images and their
//! caches, shader pipelines, and the plan of GPU work that draws them.
//!
//! The library decides and describes; it performs no I/O of its own. GPU work is
//! handed out as lists of [`gpu::GpuOp`], and what only the outside can do
//! (reading files, allocating textures, compiling programs) is asked for one
//! request at a time and fed back as plain values.

pub mod blur;
pub mod blur_options;
pub mod blur_program;
pub mod cursor;
pub mod cursor_effect;
pub mod cursor_image;
pub mod custom_blur;
pub mod custom_laws;
pub mod custom_render;
pub mod float_bits;
pub mod frame_laws;
pub mod gpu;
pub mod hashing;
pub mod icon;
pub mod jfa;
pub mod jfa_laws;
pub mod kawase;
pub mod keyed_cache;
pub mod multigrid;
pub mod sdf;
