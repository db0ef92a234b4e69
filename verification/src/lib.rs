//! Drawing on tiles: how documents are cut into tiles, how strokes and merges
//! change them, and what the GPU is told to do to show them.
//!
//! Nothing here talks to a device. Functions take what devices report as values
//! and hand back plans for the program around them to carry out.
use vstd::prelude::*;

pub mod atlas;
pub mod blocks;
pub mod collections;
pub mod gpu_runtime;
pub mod images;
pub mod model;
pub mod protocol;
pub mod protocol_laws;
pub mod render_protocol;
pub mod renderer;
pub mod scalar;
pub mod scalar_laws;
pub mod text;
pub mod text_laws;
pub mod tiles;

verus! {

} // verus!
