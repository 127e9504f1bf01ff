//! A loader for triangle meshes in the Wavefront OBJ text format.
//!
//! `object::load` reads the `v`, `vt`, `vn` and `f` records of a text and
//! flattens them into three parallel sequences, one element for each corner
//! of each triangle, ready for a draw call without an index buffer. What it
//! returns is stated in its contract and proved; `laws` holds what follows for
//! every text.

pub mod error;
pub mod geometry;
pub mod laws;
pub mod number;
pub mod object;
pub mod record;
pub mod text;
