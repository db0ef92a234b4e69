//! The commands that the GPU side carries out on tiles.
use vstd::prelude::*;

use crate::collections::Key;
use crate::gpu_runtime::native_words::native_short_bytes;
use crate::images::image_id::NodeId;
use crate::scalar::FloatBits;
use crate::tiles::TileKey;

verus! {

#[derive(Debug, Clone, Copy, PartialEq, Eq, PartialOrd, Ord, Hash, Structural)]
pub struct BrushId(pub u64);

/// A tile of a node's image.
#[derive(Debug, Clone, Copy, PartialEq, Eq, Structural)]
pub struct NodeTile {
    pub node_id: NodeId,
    pub tile_index: usize,
}

impl Key for NodeTile {
    fn same(&self, other: &Self) -> (same: bool) {
        *self == *other
    }
}

/// How the pixels that a brush draws are put on a tile.
#[derive(Debug, Clone, Copy, PartialEq, Eq, Structural)]
pub enum DrawBlendMode {
    Alpha,
    Replace,
}

/// How one tile is written onto another.
#[derive(Debug, Clone, Copy, PartialEq, Eq, Structural)]
pub enum WriteBlendMode {
    Normal,
    Erase,
}

/// How a layer is put on those below it.
#[derive(Debug, Clone, Copy, PartialEq, Eq, Structural)]
pub enum LeafBlendMode {
    Normal,
    Multiply,
}

/// The tile of an image that a brush reads from.
#[derive(Debug, Clone, Copy, PartialEq, Eq, Structural)]
pub struct RefImage {
    pub tile_key: TileKey,
}

/// Draws with a brush on a tile.
#[derive(Debug, Clone, PartialEq)]
pub struct DrawOp {
    pub node_id: NodeId,
    pub tile_index: usize,
    pub tile_key: TileKey,
    pub blend_mode: DrawBlendMode,
    pub origin_tile: TileKey,
    pub ref_image: Option<RefImage>,
    pub input: Vec<FloatBits>,
    pub brush_id: BrushId,
}

/// Copies a tile.
#[derive(Debug, Clone, Copy, PartialEq, Eq, Structural)]
pub struct CopyOp {
    pub src_tile_key: TileKey,
    pub dst_tile_key: TileKey,
}

/// Writes a tile onto another one, perhaps tinted, perhaps against an earlier
/// state of the target.
#[derive(Debug, Clone, Copy, PartialEq)]
pub struct WriteOp {
    pub src_tile_key: TileKey,
    pub dst_tile_key: TileKey,
    pub blend_mode: WriteBlendMode,
    pub opacity: FloatBits,
    pub rgb: Option<[FloatBits; 3]>,
    pub origin_tile_key: Option<TileKey>,
}

/// Puts one tile over another into a third one.
#[derive(Debug, Clone, Copy, PartialEq)]
pub struct CompositeOp {
    pub base_tile_key: TileKey,
    pub overlay_tile_key: TileKey,
    pub dst_tile_key: TileKey,
    pub blend_mode: WriteBlendMode,
    pub opacity: FloatBits,
}

/// Clears a tile.
#[derive(Debug, Clone, Copy, PartialEq, Eq, Structural)]
pub struct ClearOp {
    pub tile_key: TileKey,
}

/// What the GPU side is asked to do.
#[derive(Debug, Clone, PartialEq)]
pub enum GpuCmdMsg {
    DrawOp(DrawOp),
    CopyOp(CopyOp),
    WriteOp(WriteOp),
    CompositeOp(CompositeOp),
    ClearOp(ClearOp),
    RenderTreeUpdated,
    TileSlotKeyUpdate,
}

/// How a layer's tiles are rendered.
#[derive(Debug, Clone, Copy, PartialEq)]
pub struct NodeConfig {
    pub opacity: FloatBits,
    pub blend_mode: LeafBlendMode,
}

/// The tiles of a layer that are rendered into the targets of a command, one for
/// each target.
#[derive(Debug, Clone, PartialEq)]
pub struct RenderSource {
    pub tile_keys: Vec<TileKey>,
    pub config: NodeConfig,
}

/// Renders layers into tiles, the lowest first.
#[derive(Debug, Clone, PartialEq)]
pub struct RenderCmd {
    pub from: Vec<RenderSource>,
    pub to: Vec<TileKey>,
}

/// A point of the canvas.
#[derive(Debug, Clone, Copy, PartialEq)]
pub struct CanvasVec2 {
    pub x: FloatBits,
    pub y: FloatBits,
}

/// A vertex of a mesh on the canvas.
#[derive(Debug, Clone, Copy, PartialEq)]
pub struct ParametricVertex {
    pub position: CanvasVec2,
    pub color: [FloatBits; 4],
}

/// A mesh of triangles.
#[derive(Debug, Clone, PartialEq)]
pub struct ParametricMesh {
    pub vertices: Vec<ParametricVertex>,
    pub indices: Vec<u16>,
}

impl ParametricMesh {
    /// The bytes of the index buffer.
    pub fn index_bytes(&self) -> (bytes: Vec<u8>)
        ensures
            crate::gpu_runtime::native_words::short_natively_laid_out(bytes@, self.indices@),
    {
        native_short_bytes(&self.indices)
    }
}

/// Draws a mesh into tiles; each tile has its corner on the canvas and its index
/// in the image.
#[derive(Debug, Clone, PartialEq)]
pub struct MaterializeParametricCmd {
    pub mesh: ParametricMesh,
    pub dst_tile_keys: Vec<TileKey>,
    pub tile_origins: Vec<CanvasVec2>,
    pub tile_indices: Vec<usize>,
}

} // verus!
