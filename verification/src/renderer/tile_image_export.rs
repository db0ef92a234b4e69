//! Exporting the tiles of an image one by one.
use vstd::prelude::*;

use crate::atlas::AtlasLayout;
use crate::blocks::{copy_block, zeroed, BlockOrigin};
use crate::images::stored_image::{TILE_BYTES, TILE_ROW_BYTES};
use crate::renderer::texture_io::{
    check_layer, part_of_tile, tile_corner, tile_left_edge, TextureIoError, TextureReadback,
};
use crate::tiles::{TileKey, ATLAS_TILE_SIZE, GUTTER_SIZE, IMAGE_TILE_SIZE};

verus! {

/// A tile of an image, and its slot in the atlas.
#[derive(Clone, Copy, Debug, PartialEq, Eq, Structural)]
pub struct TileImageExportTile {
    pub atlas_layer: u32,
    pub atlas_tile_x: u32,
    pub atlas_tile_y: u32,
    pub image_tile_index: usize,
}

/// The tiles of an image that are exported.
#[derive(Clone, Debug, PartialEq, Eq)]
pub struct TileImageExportRequest {
    pub image_width: u32,
    pub image_height: u32,
    pub tiles: Vec<TileImageExportTile>,
}

/// The exported tiles among some tiles of an image, or the error for the first
/// tile whose slot the atlas does not have. Tiles without a key are left out.
pub open spec fn export_tiles(layout: AtlasLayout, image_tiles: Seq<(usize, TileKey)>) -> Result<
    Seq<TileImageExportTile>,
    TextureIoError,
>
    decreases image_tiles.len(),
{
    if image_tiles.len() == 0 {
        Ok(Seq::empty())
    } else {
        match export_tiles(layout, image_tiles.drop_last()) {
            Err(error) => Err(error),
            Ok(earlier) => {
                let (tile_index, key) = image_tiles.last();
                if key == TileKey::nothing() {
                    Ok(earlier)
                } else if key.slot >= layout.slot_count() {
                    Err(
                        TextureIoError::AtlasSlotOutOfBounds {
                            slot_index: key.slot,
                            total_slots: layout.slot_count() as u32,
                        },
                    )
                } else {
                    let address = layout.address_of(key.slot as int);
                    Ok(
                        earlier.push(
                            TileImageExportTile {
                                atlas_layer: address.layer,
                                atlas_tile_x: address.tile_x,
                                atlas_tile_y: address.tile_y,
                                image_tile_index: tile_index,
                            },
                        ),
                    )
                }
            },
        }
    }
}

proof fn lemma_export_error_stays(
    layout: AtlasLayout,
    few: Seq<(usize, TileKey)>,
    many: Seq<(usize, TileKey)>,
)
    requires
        few.len() <= many.len(),
        few == many.take(few.len() as int),
        export_tiles(layout, few) is Err,
    ensures
        export_tiles(layout, many) == export_tiles(layout, few),
    decreases many.len(),
{
    if few.len() == many.len() {
        assert(few =~= many);
    } else {
        assert(many.drop_last().take(few.len() as int) =~= few);
        lemma_export_error_stays(layout, few, many.drop_last());
    }
}

impl TileImageExportRequest {
    /// The request for some tiles of an image.
    pub fn from_image_tiles(
        atlas_layout: AtlasLayout,
        image_width: u32,
        image_height: u32,
        image_tiles: &Vec<(usize, TileKey)>,
    ) -> (result: Result<Self, TextureIoError>)
        requires
            atlas_layout.inv(),
        ensures
            match export_tiles(atlas_layout, image_tiles@) {
                Err(error) => result == Err::<Self, _>(error),
                Ok(tiles) => result is Ok && result->Ok_0.image_width == image_width
                    && result->Ok_0.image_height == image_height && result->Ok_0.tiles@ == tiles,
            },
    {
        let mut tiles: Vec<TileImageExportTile> = Vec::new();
        let mut index: usize = 0;
        while index < image_tiles.len()
            invariant
                index <= image_tiles@.len(),
                atlas_layout.inv(),
                export_tiles(atlas_layout, image_tiles@.take(index as int)) == Ok::<
                    _,
                    TextureIoError,
                >(tiles@),
            decreases image_tiles@.len() - index,
        {
            let (image_tile_index, tile_key) = image_tiles[index];
            proof {
                let longer = image_tiles@.take(index + 1);
                assert(longer.drop_last() =~= image_tiles@.take(index as int));
                assert(longer.last() == image_tiles@[index as int]);
                if export_tiles(atlas_layout, longer) is Err {
                    lemma_export_error_stays(atlas_layout, longer, image_tiles@);
                }
            }
            if !tile_key.is_empty() {
                let slot_index: u32 = tile_key.slot_index();
                match atlas_layout.slot_address(slot_index) {
                    Some(address) => {
                        tiles.push(
                            TileImageExportTile {
                                atlas_layer: address.layer,
                                atlas_tile_x: address.tile_x,
                                atlas_tile_y: address.tile_y,
                                image_tile_index,
                            },
                        );
                    },
                    None => {
                        return Err(
                            TextureIoError::AtlasSlotOutOfBounds {
                                slot_index,
                                total_slots: atlas_layout.total_slots(),
                            },
                        );
                    },
                }
            }
            index += 1;
        }
        assert(image_tiles@.take(index as int) =~= image_tiles@);
        Ok(TileImageExportRequest { image_width, image_height, tiles })
    }
}

/// The pixels of a tile of an image.
#[derive(Clone, Debug, PartialEq, Eq)]
pub struct ImageTileReadback {
    pub image_tile_index: usize,
    pub pixels_rgba8: Vec<u8>,
}

/// The corner of the image part of a slot.
pub open spec fn slot_image_start(tile: u32) -> int {
    tile * ATLAS_TILE_SIZE + GUTTER_SIZE
}

/// How many columns and rows of a tile lie within its image.
pub open spec fn exported_columns(request: TileImageExportRequest, tile_index: int) -> int {
    crate::renderer::texture_io::tile_part(
        request.image_width,
        crate::renderer::texture_io::tile_left(request.image_width, tile_index),
    )
}

pub open spec fn exported_rows(request: TileImageExportRequest, tile_index: int) -> int {
    crate::renderer::texture_io::tile_part(
        request.image_height,
        crate::renderer::texture_io::tile_top(request.image_width, tile_index),
    )
}

/// The tile can be taken out of the layers, if its layer is there.
pub open spec fn exportable(
    request: TileImageExportRequest,
    tile: TileImageExportTile,
    readbacks: Seq<TextureReadback>,
) -> bool {
    let index = tile.image_tile_index as int;
    crate::renderer::texture_io::layer_fault(tile.atlas_layer, readbacks) is None ==> {
        &&& request.image_width > 0
        &&& crate::renderer::texture_io::tile_top(request.image_width, index) <= u32::MAX
        &&& slot_image_start(tile.atlas_tile_x) <= u32::MAX
        &&& slot_image_start(tile.atlas_tile_y) <= u32::MAX
        &&& crate::renderer::texture_io::layer_holds(
            readbacks[tile.atlas_layer as int],
            slot_image_start(tile.atlas_tile_x),
            slot_image_start(tile.atlas_tile_y),
            exported_columns(request, index),
            exported_rows(request, index),
        )
    }
}

/// A byte of an exported tile: that of the atlas where the tile lies within its
/// image, and else zero.
pub open spec fn exported_byte(
    request: TileImageExportRequest,
    tile: TileImageExportTile,
    readbacks: Seq<TextureReadback>,
    row: int,
    column: int,
) -> u8 {
    let index = tile.image_tile_index as int;
    if row < exported_rows(request, index) && column < exported_columns(request, index) * 4 {
        let layer = readbacks[tile.atlas_layer as int];
        crate::blocks::at(
            layer.pixels_rgba8@,
            layer.width * 4,
            slot_image_start(tile.atlas_tile_y) + row,
            slot_image_start(tile.atlas_tile_x) * 4 + column,
        )
    } else {
        0
    }
}

/// The readback holds the exported bytes of a tile.
pub open spec fn holds_tile(
    readback: ImageTileReadback,
    request: TileImageExportRequest,
    tile: TileImageExportTile,
    readbacks: Seq<TextureReadback>,
) -> bool {
    &&& readback.image_tile_index == tile.image_tile_index
    &&& readback.pixels_rgba8@.len() == TILE_BYTES
    &&& forall|row: int, column: int|
        0 <= row < IMAGE_TILE_SIZE && 0 <= column < TILE_ROW_BYTES ==> #[trigger] crate::blocks::at(
            readback.pixels_rgba8@,
            TILE_ROW_BYTES as int,
            row,
            column,
        ) == exported_byte(request, tile, readbacks, row, column)
}

/// The error for the first of the tiles that cannot be read, if one cannot.
pub open spec fn first_export_fault(
    tiles: Seq<TileImageExportTile>,
    readbacks: Seq<TextureReadback>,
) -> Option<TextureIoError>
    decreases tiles.len(),
{
    if tiles.len() == 0 {
        None
    } else {
        match first_export_fault(tiles.drop_last(), readbacks) {
            Some(error) => Some(error),
            None => crate::renderer::texture_io::layer_fault(tiles.last().atlas_layer, readbacks),
        }
    }
}

proof fn lemma_export_fault_stays(
    few: Seq<TileImageExportTile>,
    many: Seq<TileImageExportTile>,
    readbacks: Seq<TextureReadback>,
)
    requires
        few.len() <= many.len(),
        few == many.take(few.len() as int),
        first_export_fault(few, readbacks) is Some,
    ensures
        first_export_fault(many, readbacks) == first_export_fault(few, readbacks),
    decreases many.len(),
{
    if few.len() == many.len() {
        assert(few =~= many);
    } else {
        assert(many.drop_last().take(few.len() as int) =~= few);
        lemma_export_fault_stays(few, many.drop_last(), readbacks);
    }
}

/// How many columns of a tile lie within its image.
pub fn tile_copy_width(request: &TileImageExportRequest, image_tile_index: usize) -> (width: usize)
    requires
        request.image_width > 0,
    ensures
        width == exported_columns(*request, image_tile_index as int),
        width <= IMAGE_TILE_SIZE,
{
    let left: usize = tile_left_edge(request.image_width, image_tile_index);
    part_of_tile(request.image_width, left)
}

/// How many rows of a tile lie within its image.
pub fn tile_copy_height(request: &TileImageExportRequest, image_tile_index: usize) -> (height:
    usize)
    requires
        request.image_width > 0,
        crate::renderer::texture_io::tile_top(request.image_width, image_tile_index as int)
            <= u32::MAX,
    ensures
        height == exported_rows(*request, image_tile_index as int),
        height <= IMAGE_TILE_SIZE,
{
    let (_, top) = tile_corner(request.image_width, image_tile_index);
    part_of_tile(request.image_height, top)
}

/// Takes one tile out of a layer that was read back.
fn extract_tile(
    request: &TileImageExportRequest,
    tile: TileImageExportTile,
    layer_readbacks: &Vec<TextureReadback>,
) -> (readback: ImageTileReadback)
    requires
        crate::renderer::texture_io::layer_fault(tile.atlas_layer, layer_readbacks@) is None,
        exportable(*request, tile, layer_readbacks@),
    ensures
        holds_tile(readback, *request, tile, layer_readbacks@),
{
    let layer = &layer_readbacks[tile.atlas_layer as usize];
    let mut pixels_rgba8: Vec<u8> = zeroed(TILE_BYTES);
    let ghost start = pixels_rgba8@;
    let copy_width: usize = tile_copy_width(request, tile.image_tile_index);
    let copy_height: usize = tile_copy_height(request, tile.image_tile_index);
    let from = BlockOrigin {
        stride: layer.width as usize * 4,
        column: (tile.atlas_tile_x * ATLAS_TILE_SIZE + GUTTER_SIZE) as usize * 4,
        row: (tile.atlas_tile_y * ATLAS_TILE_SIZE + GUTTER_SIZE) as usize,
    };
    let to = BlockOrigin { stride: TILE_ROW_BYTES, column: 0, row: 0 };
    copy_block(
        &mut pixels_rgba8,
        to,
        &layer.pixels_rgba8,
        from,
        copy_width * 4,
        copy_height,
    );
    proof {
        assert forall|row: int, column: int|
            0 <= row < IMAGE_TILE_SIZE && 0 <= column
                < TILE_ROW_BYTES implies #[trigger] crate::blocks::at(
            pixels_rgba8@,
            TILE_ROW_BYTES as int,
            row,
            column,
        ) == exported_byte(*request, tile, layer_readbacks@, row, column) by {
            assert(row * 504 + column < TILE_BYTES);
            assert(crate::blocks::at(pixels_rgba8@, to.stride as int, row, column)
                == crate::blocks::copied_at(
                start,
                to,
                layer.pixels_rgba8@,
                from,
                copy_width * 4,
                copy_height as int,
                row,
                column,
            ));
            assert(crate::blocks::at(start, TILE_ROW_BYTES as int, row, column) == 0);
        }
    }
    ImageTileReadback { image_tile_index: tile.image_tile_index, pixels_rgba8 }
}

/// Takes the tiles of an image out of layers of the atlas that were read back.
pub fn extract_tile_readbacks_from_readbacks(
    request: &TileImageExportRequest,
    layer_readbacks: &Vec<TextureReadback>,
) -> (result: Result<Vec<ImageTileReadback>, TextureIoError>)
    requires
        forall|i: int|
            0 <= i < request.tiles@.len() ==> exportable(
                *request,
                #[trigger] request.tiles@[i],
                layer_readbacks@,
            ),
    ensures
        match first_export_fault(request.tiles@, layer_readbacks@) {
            Some(error) => result == Err::<Vec<ImageTileReadback>, _>(error),
            None => {
                &&& result is Ok
                &&& result->Ok_0@.len() == request.tiles@.len()
                &&& forall|i: int|
                    0 <= i < request.tiles@.len() ==> holds_tile(
                        #[trigger] result->Ok_0@[i],
                        *request,
                        request.tiles@[i],
                        layer_readbacks@,
                    )
            },
        },
{
    let mut tiles: Vec<ImageTileReadback> = Vec::new();
    let mut index: usize = 0;
    while index < request.tiles.len()
        invariant
            index <= request.tiles@.len(),
            forall|i: int|
                0 <= i < request.tiles@.len() ==> exportable(
                    *request,
                    #[trigger] request.tiles@[i],
                    layer_readbacks@,
                ),
            first_export_fault(request.tiles@.take(index as int), layer_readbacks@) is None,
            tiles@.len() == index,
            forall|i: int|
                0 <= i < index ==> holds_tile(
                    #[trigger] tiles@[i],
                    *request,
                    request.tiles@[i],
                    layer_readbacks@,
                ),
        decreases request.tiles@.len() - index,
    {
        let tile = request.tiles[index];
        proof {
            let longer = request.tiles@.take(index + 1);
            assert(longer.drop_last() =~= request.tiles@.take(index as int));
            if first_export_fault(longer, layer_readbacks@) is Some {
                lemma_export_fault_stays(longer, request.tiles@, layer_readbacks@);
            }
            assert(exportable(*request, request.tiles@[index as int], layer_readbacks@));
        }
        match check_layer(tile.atlas_layer, layer_readbacks) {
            Some(error) => {
                return Err(error);
            },
            None => {},
        }
        tiles.push(extract_tile(request, tile, layer_readbacks));
        index += 1;
    }
    assert(request.tiles@.take(index as int) =~= request.tiles@);
    Ok(tiles)
}

} // verus!
