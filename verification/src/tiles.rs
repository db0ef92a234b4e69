//! Tiles in atlas textures.
use vstd::prelude::*;

use crate::collections::Key;

verus! {

/// The side of the slot that a tile takes in an atlas, gutter included.
pub const TILE_STRIDE: u32 = 128;

/// The width of the gutter around a tile's image.
pub const TILE_GUTTER: u32 = 1;

/// The side of a tile's image.
pub const TILE_IMAGE: u32 = 126;

/// Where a tile's image starts within its slot.
pub const TILE_IMAGE_ORIGIN: u32 = 1;

/// The image of a tile fills its slot but for the gutter on both sides.
pub proof fn lemma_tile_image_and_gutter_fill_the_slot()
    ensures
        TILE_IMAGE + 2 * TILE_GUTTER == TILE_STRIDE,
        TILE_IMAGE_ORIGIN == TILE_GUTTER,
        IMAGE_TILE_SIZE + 2 * GUTTER_SIZE == ATLAS_TILE_SIZE,
{
}

/// The side of an atlas slot, under the name that the image side uses.
pub const ATLAS_TILE_SIZE: u32 = 128;

/// The side of the part of an image that one tile covers.
pub const IMAGE_TILE_SIZE: u32 = 126;

/// The width of the gutter, under the name that the image side uses.
pub const GUTTER_SIZE: u32 = 1;

/// Names a tile's slot: the atlas backend, the slot in it, and the generation
/// of that slot, which tells apart the tiles that it has held over time.
#[derive(Debug, Clone, Copy, PartialEq, Eq, PartialOrd, Ord, Hash, Structural)]
pub struct TileKey {
    pub backend: u8,
    pub generation: u32,
    pub slot: u32,
}

impl Key for TileKey {
    fn same(&self, other: &Self) -> (same: bool) {
        self.backend == other.backend && self.generation == other.generation && self.slot
            == other.slot
    }
}

impl TileKey {
    /// The key that names no tile.
    pub open spec fn nothing() -> TileKey {
        TileKey { backend: u8::MAX, generation: u32::MAX, slot: u32::MAX }
    }

    /// The key that names no tile.
    pub fn empty() -> (key: TileKey)
        ensures
            key == TileKey::nothing(),
    {
        TileKey { backend: u8::MAX, generation: u32::MAX, slot: u32::MAX }
    }

    pub fn from_parts(backend: u8, generation: u32, slot: u32) -> (key: TileKey)
        ensures
            key == (TileKey { backend, generation, slot }),
    {
        TileKey { backend, generation, slot }
    }

    pub fn backend_index(&self) -> (backend: u8)
        ensures
            backend == self.backend,
    {
        self.backend
    }

    pub fn slot_index(&self) -> (slot: u32)
        ensures
            slot == self.slot,
    {
        self.slot
    }

    /// Tells whether the key names no tile.
    pub fn is_empty(&self) -> (empty: bool)
        ensures
            empty == (*self == TileKey::nothing()),
    {
        *self == TileKey::empty()
    }
}

/// Where a tile is: a layer of the atlas and a slot in that layer.
#[derive(Debug, Clone, Copy, PartialEq, Eq, Structural)]
pub struct TileAddress {
    pub atlas_layer: u32,
    pub tile_index: u16,
}

/// The grid of slots in each layer of an atlas.
#[derive(Debug, Clone, Copy, PartialEq, Eq, Structural)]
pub struct TileAtlasLayout {
    pub tiles_per_row: u32,
    pub tiles_per_column: u32,
    pub atlas_width: u32,
    pub atlas_height: u32,
}

/// The corner of a slot, in texels.
#[derive(Debug, Clone, Copy, PartialEq, Eq, Structural)]
pub struct SlotOrigin {
    pub x: u32,
    pub y: u32,
}

impl TileAtlasLayout {
    /// The layer has a slot with this index.
    pub open spec fn has_slot(self, tile_index: u16) -> bool {
        tile_index < self.tiles_per_row * self.tiles_per_column
    }

    /// The corner of a slot: slots are numbered row by row.
    pub open spec fn origin(self, tile_index: u16) -> SlotOrigin {
        SlotOrigin {
            x: ((tile_index as u32 % self.tiles_per_row) * TILE_STRIDE) as u32,
            y: ((tile_index as u32 / self.tiles_per_row) * TILE_STRIDE) as u32,
        }
    }

    /// Tells whether a layer has a slot with this index.
    pub fn contains_slot(&self, tile_index: u16) -> (inside: bool)
        ensures
            inside == self.has_slot(tile_index),
    {
        proof {
            assert(self.tiles_per_row as u64 * self.tiles_per_column as u64 <= u64::MAX)
                by (nonlinear_arith)
                requires
                    self.tiles_per_row <= u32::MAX,
                    self.tiles_per_column <= u32::MAX,
            ;
        }
        let slots: u64 = self.tiles_per_row as u64 * self.tiles_per_column as u64;
        (tile_index as u64) < slots
    }

    /// The corner of a slot of the layer.
    pub fn slot_origin(&self, tile_index: u16) -> (origin: SlotOrigin)
        requires
            self.has_slot(tile_index),
        ensures
            origin == self.origin(tile_index),
            origin.x / TILE_STRIDE < self.tiles_per_row,
            origin.y / TILE_STRIDE < self.tiles_per_column,
    {
        proof {
            lemma_slot_in_grid(
                tile_index as int,
                self.tiles_per_row as int,
                self.tiles_per_column as int,
            );
        }
        let x: u32 = tile_index as u32 % self.tiles_per_row;
        let y: u32 = tile_index as u32 / self.tiles_per_row;
        proof {
            assert(x <= tile_index) by (nonlinear_arith)
                requires
                    x == tile_index as u32 % self.tiles_per_row,
                    self.tiles_per_row > 0,
            ;
            assert(y <= tile_index) by (nonlinear_arith)
                requires
                    y == tile_index as u32 / self.tiles_per_row,
                    self.tiles_per_row > 0,
            ;
        }
        SlotOrigin { x: x * TILE_STRIDE, y: y * TILE_STRIDE }
    }
}

/// A slot index below the number of slots lies in the grid.
proof fn lemma_slot_in_grid(index: int, row: int, column: int)
    by (nonlinear_arith)
    requires
        0 <= index < row * column,
        0 <= row,
        0 <= column,
    ensures
        row > 0,
        0 <= index % row < row,
        0 <= index / row < column,
{
}

/// Two slots of a layer have the same corner only if they are the same slot.
pub proof fn lemma_slot_origins_differ(layout: TileAtlasLayout, left: u16, right: u16)
    requires
        layout.has_slot(left),
        layout.has_slot(right),
        layout.origin(left) == layout.origin(right),
    ensures
        left == right,
{
    let row = layout.tiles_per_row as int;
    lemma_slot_in_grid(left as int, row, layout.tiles_per_column as int);
    lemma_slot_in_grid(right as int, row, layout.tiles_per_column as int);
    let (l, r) = (left as int, right as int);
    assert(0 <= l / row <= l && 0 <= r / row <= r) by (nonlinear_arith)
        requires
            row > 0,
            l >= 0,
            r >= 0,
    ;
    assert(l % row <= l && r % row <= r) by (nonlinear_arith)
        requires
            row > 0,
            l >= 0,
            r >= 0,
    ;
    assert(l % row == r % row);
    assert(l / row == r / row);
    assert(l == row * (l / row) + l % row && r == row * (r / row) + r % row) by (nonlinear_arith)
        requires
            row > 0,
    ;
}

} // verus!
