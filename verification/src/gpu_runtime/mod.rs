//! What the GPU is told to do: where tiles are in the atlas textures, and the
//! passes, copies and draws that a frame is made of.
pub mod atlas_runtime;
pub mod brush_executor;
pub mod brush_runtime;
pub mod command_laws;
pub mod commands;
pub mod context;
pub mod device_laws;
pub mod dirty;
pub mod draw_laws;
pub mod frame_batch;
pub mod generic_executor;
pub mod mesh_laws;
pub mod native_words;
pub mod render_executor;
pub mod render_laws;
pub mod render_passes;
pub mod surface_runtime;
pub mod tile_op_laws;
