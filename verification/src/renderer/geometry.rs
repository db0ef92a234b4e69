//! Extents and tile grids derived from the document size.
use vstd::prelude::*;

use crate::model::div_ceil;
use crate::renderer::merge_submission::CopyExtent;
use crate::tiles::{TILE_IMAGE, TILE_STRIDE};

verus! {

/// The number of tiles in each row and in each column of a group.
pub open spec fn group_grid(document_width: u32, document_height: u32) -> (int, int) {
    (
        crate::model::parts(document_width as int, TILE_IMAGE as int),
        crate::model::parts(document_height as int, TILE_IMAGE as int),
    )
}

/// The number of tiles in each row and in each column of a group: as many as
/// cover the document.
pub fn group_tile_grid_from_document_size(document_width: u32, document_height: u32) -> (grid: (
    u32,
    u32,
))
    requires
        document_width > 0,
        document_height > 0,
    ensures
        grid.0 == group_grid(document_width, document_height).0,
        grid.1 == group_grid(document_width, document_height).1,
        grid.0 > 0,
        grid.1 > 0,
        grid.0 * TILE_IMAGE >= document_width,
        grid.1 * TILE_IMAGE >= document_height,
{
    (div_ceil(document_width, TILE_IMAGE), div_ceil(document_height, TILE_IMAGE))
}

/// The extent of a group's cache: whole tiles.
pub fn group_cache_extent_from_document_size(document_width: u32, document_height: u32) -> (extent:
    CopyExtent)
    requires
        document_width > 0,
        document_height > 0,
        group_grid(document_width, document_height).0 * TILE_IMAGE <= u32::MAX,
        group_grid(document_width, document_height).1 * TILE_IMAGE <= u32::MAX,
    ensures
        extent.width == group_grid(document_width, document_height).0 * TILE_IMAGE,
        extent.height == group_grid(document_width, document_height).1 * TILE_IMAGE,
        extent.depth_or_array_layers == 1,
{
    let (tiles_per_row, tiles_per_column) = group_tile_grid_from_document_size(
        document_width,
        document_height,
    );
    CopyExtent {
        width: tiles_per_row * TILE_IMAGE,
        height: tiles_per_column * TILE_IMAGE,
        depth_or_array_layers: 1,
    }
}

/// The extent of the texture that a group is composed in: whole slots.
pub fn group_cache_slot_extent_from_document_size(document_width: u32, document_height: u32) -> (
    extent: CopyExtent)
    requires
        document_width > 0,
        document_height > 0,
        group_grid(document_width, document_height).0 * TILE_STRIDE <= u32::MAX,
        group_grid(document_width, document_height).1 * TILE_STRIDE <= u32::MAX,
    ensures
        extent.width == group_grid(document_width, document_height).0 * TILE_STRIDE,
        extent.height == group_grid(document_width, document_height).1 * TILE_STRIDE,
        extent.depth_or_array_layers == 1,
{
    let (tiles_per_row, tiles_per_column) = group_tile_grid_from_document_size(
        document_width,
        document_height,
    );
    CopyExtent {
        width: tiles_per_row * TILE_STRIDE,
        height: tiles_per_column * TILE_STRIDE,
        depth_or_array_layers: 1,
    }
}

/// The number of tiles of a group.
pub fn group_tile_count(tiles_per_row: u32, tiles_per_column: u32) -> (count: usize)
    requires
        tiles_per_row * tiles_per_column <= u32::MAX,
    ensures
        count == tiles_per_row * tiles_per_column,
{
    (tiles_per_row * tiles_per_column) as usize
}

} // verus!
