//! What is read back of an image's tiles, in terms of the slots of their keys.
use vstd::prelude::*;

use crate::atlas::AtlasLayout;
use crate::images::stored_image::StoredImageModel;
use crate::renderer::texture_io::{
    AtlasImageReadbackRequest, TextureIoError, TextureReadback,
};
use crate::renderer::tile_image_export::{
    ImageTileReadback, TileImageExportRequest, TileImageExportTile,
};
use crate::tiles::TileKey;

verus! {

/// The place in the atlas is that of the slot: slots are numbered row by row, layer
/// by layer.
pub open spec fn is_place_of(
    layout: AtlasLayout,
    layer: u32,
    tile_x: int,
    tile_y: int,
    slot: u32,
) -> bool {
    &&& layer < layout.layers
    &&& 0 <= tile_x < layout.tiles_per_edge
    &&& 0 <= tile_y < layout.tiles_per_edge
    &&& layer * layout.tiles_per_edge * layout.tiles_per_edge + tile_y * layout.tiles_per_edge
        + tile_x == slot
}

/// The atlas has no such slot.
pub open spec fn is_beyond(layout: AtlasLayout, slot: u32) -> bool {
    slot >= layout.tiles_per_edge * layout.tiles_per_edge * layout.layers
}

proof fn lemma_place_of_slot(layout: AtlasLayout, slot: u32)
    requires
        layout.inv(),
        !is_beyond(layout, slot),
    ensures
        ({
            let address = layout.address_of(slot as int);
            is_place_of(
                layout,
                address.layer,
                address.tile_x as int,
                address.tile_y as int,
                slot,
            )
        }),
{
    crate::atlas::lemma_slot_in_atlas(layout, slot as int);
    let address = layout.address_of(slot as int);
    let edge = layout.tiles_per_edge as int;
    assert(address.layer * edge * edge == address.layer * (edge * edge)) by (nonlinear_arith);
}

/// The places among the tiles of those that have a key, in order.
pub open spec fn keyed(image_tiles: Seq<(usize, TileKey)>) -> Seq<int>
    decreases image_tiles.len(),
{
    if image_tiles.len() == 0 {
        Seq::empty()
    } else if image_tiles.last().1 == TileKey::nothing() {
        keyed(image_tiles.drop_last())
    } else {
        keyed(image_tiles.drop_last()).push(image_tiles.len() - 1)
    }
}

/// The exported tile is the tile of the image: it has its index, and the place of
/// its key's slot.
pub open spec fn exports(
    layout: AtlasLayout,
    exported: TileImageExportTile,
    tile: (usize, TileKey),
) -> bool {
    &&& exported.image_tile_index == tile.0
    &&& is_place_of(
        layout,
        exported.atlas_layer,
        exported.atlas_tile_x as int,
        exported.atlas_tile_y as int,
        tile.1.slot,
    )
}

/// The tiles that have a key are exported, in order, each from the place of its
/// slot. This fails exactly if the atlas does not have the slot of one of them, and
/// the first such slot is named.
pub proof fn lemma_tiles_are_exported_from_their_slots(
    layout: AtlasLayout,
    image_tiles: Seq<(usize, TileKey)>,
)
    requires
        layout.inv(),
    ensures
        forall|j: int|
            0 <= j < keyed(image_tiles).len() ==> 0 <= #[trigger] keyed(image_tiles)[j]
                < image_tiles.len() && image_tiles[keyed(image_tiles)[j]].1 != TileKey::nothing(),
        match crate::renderer::tile_image_export::export_tiles(layout, image_tiles) {
            Ok(tiles) => {
                &&& tiles.len() == keyed(image_tiles).len()
                &&& forall|j: int|
                    0 <= j < tiles.len() ==> exports(
                        layout,
                        #[trigger] tiles[j],
                        image_tiles[keyed(image_tiles)[j]],
                    )
                &&& forall|i: int|
                    0 <= i < image_tiles.len() && (#[trigger] image_tiles[i]).1
                        != TileKey::nothing() ==> !is_beyond(layout, image_tiles[i].1.slot)
            },
            Err(error) => exists|i: int|
                0 <= i < image_tiles.len() && (#[trigger] image_tiles[i]).1 != TileKey::nothing()
                    && is_beyond(layout, image_tiles[i].1.slot) && (forall|k: int|
                    0 <= k < i && (#[trigger] image_tiles[k]).1 != TileKey::nothing()
                        ==> !is_beyond(layout, image_tiles[k].1.slot)) && error == (
                TextureIoError::AtlasSlotOutOfBounds {
                    slot_index: image_tiles[i].1.slot,
                    total_slots: (layout.tiles_per_edge * layout.tiles_per_edge
                        * layout.layers) as u32,
                }),
        },
    decreases image_tiles.len(),
{
    if image_tiles.len() > 0 {
        let shorter = image_tiles.drop_last();
        let last = image_tiles.len() - 1;
        lemma_tiles_are_exported_from_their_slots(layout, shorter);
        assert forall|j: int| 0 <= j < keyed(image_tiles).len() implies 0 <= #[trigger] keyed(
            image_tiles,
        )[j] < image_tiles.len() && image_tiles[keyed(image_tiles)[j]].1 != TileKey::nothing() by {
            if j < keyed(shorter).len() {
                assert(keyed(image_tiles)[j] == keyed(shorter)[j]);
            }
        }
        match crate::renderer::tile_image_export::export_tiles(layout, shorter) {
            Ok(earlier) => {
                assert forall|i: int|
                    0 <= i < last && (#[trigger] image_tiles[i]).1
                        != TileKey::nothing() implies !is_beyond(
                    layout,
                    image_tiles[i].1.slot,
                ) by {
                    assert(shorter[i] == image_tiles[i]);
                }
                if !is_beyond(layout, image_tiles[last].1.slot) {
                    lemma_place_of_slot(layout, image_tiles[last].1.slot);
                }
                match crate::renderer::tile_image_export::export_tiles(layout, image_tiles) {
                    Ok(tiles) => {
                        assert forall|j: int| 0 <= j < tiles.len() implies exports(
                            layout,
                            #[trigger] tiles[j],
                            image_tiles[keyed(image_tiles)[j]],
                        ) by {
                            if j < earlier.len() {
                                assert(tiles[j] == earlier[j]);
                                assert(keyed(image_tiles)[j] == keyed(shorter)[j]);
                                assert(shorter[keyed(shorter)[j]]
                                    == image_tiles[keyed(shorter)[j]]);
                            }
                        }
                    },
                    Err(error) => {
                        assert(is_beyond(layout, image_tiles[last].1.slot));
                    },
                }
            },
            Err(error) => {
                let i = choose|i: int|
                    0 <= i < shorter.len() && (#[trigger] shorter[i]).1 != TileKey::nothing()
                        && is_beyond(layout, shorter[i].1.slot) && (forall|k: int|
                        0 <= k < i && (#[trigger] shorter[k]).1 != TileKey::nothing()
                            ==> !is_beyond(layout, shorter[k].1.slot)) && error == (
                    TextureIoError::AtlasSlotOutOfBounds {
                        slot_index: shorter[i].1.slot,
                        total_slots: (layout.tiles_per_edge * layout.tiles_per_edge
                            * layout.layers) as u32,
                    });
                assert(image_tiles[i] == shorter[i]);
                assert forall|k: int|
                    0 <= k < i && (#[trigger] image_tiles[k]).1
                        != TileKey::nothing() implies !is_beyond(
                    layout,
                    image_tiles[k].1.slot,
                ) by {
                    assert(shorter[k] == image_tiles[k]);
                }
            },
        }
    }
}

/// A byte of the atlas: that of a channel of the pixel at a place of a slot's image,
/// which starts one pixel within the slot.
pub open spec fn slot_channel(
    layers: Seq<TextureReadback>,
    edge: int,
    slot: int,
    x: int,
    y: int,
    channel: int,
) -> u8 {
    let layer = layers[slot / (edge * edge)];
    let row = ((slot % (edge * edge)) / edge) * 128 + 1 + y;
    let column = ((slot % (edge * edge)) % edge) * 128 + 1 + x;
    layer.pixels_rgba8@[(row * layer.width + column) * 4 + channel]
}

/// Where a pixel of a tile is in its image: tiles are squares of 126 pixels, and
/// those of an image are numbered row by row.
pub open spec fn image_place(width: u32, tile_index: int, x: int, y: int) -> (int, int) {
    let across = (width + 125) / 126;
    ((tile_index % across) * 126 + x, (tile_index / across) * 126 + y)
}

/// A channel of a pixel of a tile: that of the image, or zero beyond its edge.
pub open spec fn image_channel(
    image: StoredImageModel,
    tile_index: int,
    x: int,
    y: int,
    channel: int,
) -> u8 {
    let place = image_place(image.width, tile_index, x, y);
    if place.0 < image.width && place.1 < image.height {
        image.pixels[(place.1 * image.width + place.0) * 4 + channel]
    } else {
        0
    }
}

/// The slot holds the tile, as far as the tile lies in the image.
pub open spec fn slot_holds(
    layers: Seq<TextureReadback>,
    layout: AtlasLayout,
    slot: u32,
    image: StoredImageModel,
    tile_index: int,
) -> bool {
    forall|x: int, y: int, channel: int|
        0 <= x < 126 && 0 <= y < 126 && 0 <= channel < 4 && image_place(
            image.width,
            tile_index,
            x,
            y,
        ).0 < image.width && image_place(image.width, tile_index, x, y).1 < image.height
            ==> #[trigger] slot_channel(
            layers,
            layout.tiles_per_edge as int,
            slot as int,
            x,
            y,
            channel,
        ) == image_channel(image, tile_index, x, y, channel)
}

/// The tiles that are taken out of an atlas which holds an image's tiles in the
/// slots of their keys are the image's tiles, byte by byte.
pub proof fn lemma_extracted_tiles_are_those_of_the_image(
    image: StoredImageModel,
    layout: AtlasLayout,
    image_tiles: Seq<(usize, TileKey)>,
    request: TileImageExportRequest,
    layers: Seq<TextureReadback>,
    readback: ImageTileReadback,
    j: int,
)
    requires
        image.width > 0,
        layout.inv(),
        crate::renderer::tile_image_export::export_tiles(layout, image_tiles) == Ok::<
            _,
            TextureIoError,
        >(request.tiles@),
        request.image_width == image.width,
        request.image_height == image.height,
        0 <= j < request.tiles@.len(),
        slot_holds(
            layers,
            layout,
            image_tiles[keyed(image_tiles)[j]].1.slot,
            image,
            image_tiles[keyed(image_tiles)[j]].0 as int,
        ),
        crate::renderer::tile_image_export::holds_tile(
            readback,
            request,
            request.tiles@[j],
            layers,
        ),
    ensures
        readback.image_tile_index == image_tiles[keyed(image_tiles)[j]].0,
        readback.pixels_rgba8@.len() == 126 * 126 * 4,
        forall|x: int, y: int, channel: int|
            0 <= x < 126 && 0 <= y < 126 && 0 <= channel < 4
                ==> readback.pixels_rgba8@[(y * 126 + x) * 4 + channel]
                == #[trigger] image_channel(
                image,
                readback.image_tile_index as int,
                x,
                y,
                channel,
            ),
{
    lemma_tiles_are_exported_from_their_slots(layout, image_tiles);
    let exported = request.tiles@[j];
    let (tile_index, key) = image_tiles[keyed(image_tiles)[j]];
    let edge = layout.tiles_per_edge as int;
    assert(exports(layout, exported, image_tiles[keyed(image_tiles)[j]]));
    lemma_place_tells_slot(
        edge,
        exported.atlas_layer as int,
        exported.atlas_tile_x as int,
        exported.atlas_tile_y as int,
        key.slot as int,
    );
    let layer = layers[exported.atlas_layer as int];
    assert forall|x: int, y: int, channel: int|
        0 <= x < 126 && 0 <= y < 126 && 0 <= channel < 4 implies readback.pixels_rgba8@[(y * 126
        + x) * 4 + channel] == #[trigger] image_channel(
        image,
        readback.image_tile_index as int,
        x,
        y,
        channel,
    ) by {
        assert(crate::blocks::at(readback.pixels_rgba8@, 504, y, x * 4 + channel)
            == readback.pixels_rgba8@[(y * 126 + x) * 4 + channel]);
        let place = image_place(image.width, tile_index as int, x, y);
        if place.0 < image.width && place.1 < image.height {
            assert(slot_channel(layers, edge, key.slot as int, x, y, channel) == image_channel(
                image,
                tile_index as int,
                x,
                y,
                channel,
            ));
            let row = exported.atlas_tile_y * 128 + 1 + y;
            let column = exported.atlas_tile_x * 128 + 1 + x;
            assert(row * (layer.width * 4) + (column * 4 + channel) == (row * layer.width + column)
                * 4 + channel) by (nonlinear_arith);
        }
    }
}

/// The layer, the row and the column of a slot can be read off it.
proof fn lemma_place_tells_slot(edge: int, layer: int, tile_x: int, tile_y: int, slot: int)
    requires
        layer >= 0,
        0 <= tile_x < edge,
        0 <= tile_y < edge,
        layer * edge * edge + tile_y * edge + tile_x == slot,
    ensures
        slot / (edge * edge) == layer,
        (slot % (edge * edge)) / edge == tile_y,
        (slot % (edge * edge)) % edge == tile_x,
{
    let inner = tile_y * edge + tile_x;
    assert(0 <= inner < edge * edge && layer * edge * edge == layer * (edge * edge))
        by (nonlinear_arith)
        requires
            inner == tile_y * edge + tile_x,
            0 <= tile_x < edge,
            0 <= tile_y < edge,
    ;
    vstd::arithmetic::div_mod::lemma_fundamental_div_mod_converse(
        slot,
        edge * edge,
        layer,
        inner,
    );
    vstd::arithmetic::div_mod::lemma_fundamental_div_mod_converse(inner, edge, tile_y, tile_x);
}

/// The keys of all tiles of an image that have one are asked for, in order: each
/// request is for the tile's own index, and starts at the image part of its slot.
/// This fails exactly if the atlas does not have the slot of one of them.
pub proof fn lemma_requests_are_for_the_slots(layout: AtlasLayout, keys: Seq<TileKey>, count: int)
    requires
        layout.inv(),
        layout.tiles_per_edge * 128 <= u32::MAX,
        0 <= count <= keys.len() <= usize::MAX,
    ensures
        match crate::renderer::texture_io::tile_requests(layout, keys, count) {
            Ok(requests) => {
                &&& forall|i: int|
                    0 <= i < requests.len() ==> ({
                        let request = #[trigger] requests[i];
                        &&& request.destination_tile_index < count
                        &&& keys[request.destination_tile_index as int] != TileKey::nothing()
                        &&& request.atlas_origin_x % 128 == 1
                        &&& request.atlas_origin_y % 128 == 1
                        &&& is_place_of(
                            layout,
                            request.atlas_layer,
                            request.atlas_origin_x as int / 128,
                            request.atlas_origin_y as int / 128,
                            keys[request.destination_tile_index as int].slot,
                        )
                    })
                &&& forall|i: int, k: int|
                    0 <= i < k < requests.len() ==> (#[trigger] requests[i]).destination_tile_index
                        < (#[trigger] requests[k]).destination_tile_index
                &&& forall|index: int|
                    0 <= index < count && #[trigger] keys[index] != TileKey::nothing()
                        ==> !is_beyond(layout, keys[index].slot) && exists|i: int|
                        0 <= i < requests.len() && (#[trigger] requests[i]).destination_tile_index
                            == index
            },
            Err(error) => exists|index: int|
                0 <= index < count && #[trigger] keys[index] != TileKey::nothing() && is_beyond(
                    layout,
                    keys[index].slot,
                ) && error == (TextureIoError::AtlasSlotOutOfBounds {
                    slot_index: keys[index].slot,
                    total_slots: (layout.tiles_per_edge * layout.tiles_per_edge
                        * layout.layers) as u32,
                }),
        },
    decreases count,
{
    if count > 0 {
        lemma_requests_are_for_the_slots(layout, keys, count - 1);
        let key = keys[count - 1];
        if key != TileKey::nothing() && !is_beyond(layout, key.slot) {
            lemma_place_of_slot(layout, key.slot);
            if let Ok(earlier) = crate::renderer::texture_io::tile_requests(
                layout,
                keys,
                count - 1,
            ) {
                let requests = crate::renderer::texture_io::tile_requests(
                    layout,
                    keys,
                    count,
                )->Ok_0;
                assert(requests[earlier.len() as int].destination_tile_index == count - 1);
                assert forall|index: int|
                    0 <= index < count && #[trigger] keys[index] != TileKey::nothing() implies
                    !is_beyond(layout, keys[index].slot) && exists|i: int|
                    0 <= i < requests.len() && (#[trigger] requests[i]).destination_tile_index
                        == index by {
                    if index < count - 1 {
                        let i = choose|i: int|
                            0 <= i < earlier.len() && (
                            #[trigger] earlier[i]).destination_tile_index == index;
                        assert(requests[i] == earlier[i]);
                    }
                }
            }
        }
    }
}

/// The image that is put together from an atlas which holds its tiles in the slots
/// of their keys is the image, byte by byte, if the tiles without a key are empty.
pub proof fn lemma_image_is_read_back_from_its_slots(
    image: StoredImageModel,
    layout: AtlasLayout,
    keys: Seq<TileKey>,
    request: AtlasImageReadbackRequest,
    layers: Seq<TextureReadback>,
    x: int,
    y: int,
    channel: int,
)
    requires
        image.inv(),
        layout.inv(),
        layout.tiles_per_edge * 128 <= u32::MAX,
        keys.len() == image.tiling().tile_count(),
        keys.len() <= usize::MAX,
        crate::renderer::texture_io::tile_requests(layout, keys, keys.len() as int) == Ok::<
            _,
            TextureIoError,
        >(request.tile_requests@),
        request.image_width == image.width,
        request.image_height == image.height,
        forall|index: int|
            0 <= index < keys.len() && #[trigger] keys[index] != TileKey::nothing() ==> slot_holds(
                layers,
                layout,
                keys[index].slot,
                image,
                index,
            ),
        forall|index: int|
            0 <= index < keys.len() && #[trigger] keys[index] == TileKey::nothing()
                ==> !image.tile_is_filled(index),
        0 <= x < image.width,
        0 <= y < image.height,
        0 <= channel < 4,
    ensures
        crate::renderer::texture_io::composed_byte(
            request,
            layers,
            request.tile_requests@.len() as int,
            y,
            x * 4 + channel,
        ) == image.pixels[(y * image.width + x) * 4 + channel],
{
    lemma_requests_are_for_the_slots(layout, keys, keys.len() as int);
    let edge = layout.tiles_per_edge as int;
    assert forall|i: int|
        0 <= i
            < request.tile_requests@.len() implies crate::renderer::texture_io::layers_hold_tile(
        image,
        #[trigger] request.tile_requests@[i],
        layers,
    ) by {
        let tile = request.tile_requests@[i];
        let index = tile.destination_tile_index as int;
        let slot = keys[index].slot as int;
        let layer = layers[tile.atlas_layer as int];
        lemma_place_tells_slot(
            edge,
            tile.atlas_layer as int,
            tile.atlas_origin_x as int / 128,
            tile.atlas_origin_y as int / 128,
            slot,
        );
        assert(image.tiling().tile_x == (image.width + 125) / 126);
        assert forall|x: int, y: int, channel: int|
            0 <= x < crate::renderer::texture_io::tile_part(
                image.width,
                crate::renderer::texture_io::tile_left(image.width, index),
            ) && 0 <= y < crate::renderer::texture_io::tile_part(
                image.height,
                crate::renderer::texture_io::tile_top(image.width, index),
            ) && 0 <= channel < 4 implies crate::blocks::at(
            layer.pixels_rgba8@,
            layer.width * 4,
            tile.atlas_origin_y + y,
            tile.atlas_origin_x * 4 + (x * 4 + channel),
        ) == #[trigger] image.tile_channel(index, x, y, channel) by {
            assert(slot_channel(layers, edge, slot, x, y, channel) == image_channel(
                image,
                index,
                x,
                y,
                channel,
            ));
            let row = tile.atlas_origin_y + y;
            let column = tile.atlas_origin_x + x;
            assert(row * (layer.width * 4) + (tile.atlas_origin_x * 4 + (x * 4 + channel)) == (row
                * layer.width + column) * 4 + channel) by (nonlinear_arith)
                requires
                    column == tile.atlas_origin_x + x,
            ;
        }
    }
    crate::renderer::texture_io::lemma_export_gives_the_image_back(
        image,
        layout,
        keys,
        request,
        layers,
        x,
        y,
        channel,
    );
}

} // verus!
