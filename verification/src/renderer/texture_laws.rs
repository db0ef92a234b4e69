//! Which pixels can be exchanged with a texture, and what is wrong with others.
use vstd::prelude::*;

use crate::gpu_runtime::atlas_runtime::TextureFormat;
use crate::renderer::texture_io::{
    AtlasTileReadbackRequest, RendererTexture, TextureIoError, TextureReadback,
};
use crate::renderer::tile_image_export::TileImageExportTile;

verus! {

/// Pixels are taken for a layer exactly if there are some, four bytes for each, for a
/// layer that the texture has, of its size, and in a texture of bytes in linear steps. Of
/// several things that are wrong the first of these is told.
pub proof fn lemma_pixels_are_taken(
    texture: RendererTexture,
    len: usize,
    width: u32,
    height: u32,
    layer: u32,
)
    ensures
        ({
            let bytes = width * height * 4;
            let empty = width == 0 || height == 0;
            let uncounted = bytes > usize::MAX;
            let short = len != bytes;
            let layerless = layer >= texture.layers;
            let misfit = texture.width != width || texture.height != height;
            match texture.upload_error(len as int, width, height, layer) {
                None => !empty && !short && !layerless && !misfit && texture.format
                    == TextureFormat::Rgba8Unorm,
                Some(TextureIoError::InvalidExtent { width: w, height: h }) => (empty || uncounted)
                    && w == width && h == height,
                Some(TextureIoError::PixelBufferLengthMismatch { expected, actual }) => !empty
                    && !uncounted && short && expected == bytes && actual == len,
                Some(TextureIoError::LayerOutOfBounds { layer: l, layers }) => !empty && !short
                    && layerless && l == layer && layers == texture.layers,
                Some(
                    TextureIoError::ExtentMismatch {
                        expected_width,
                        expected_height,
                        actual_width,
                        actual_height,
                    },
                ) => !empty && !short && !layerless && misfit && expected_width == texture.width
                    && expected_height == texture.height && actual_width == width && actual_height
                    == height,
                Some(TextureIoError::UnsupportedTextureFormat(format)) => !empty && !short
                    && !layerless && !misfit && format == texture.format && format
                    != TextureFormat::Rgba8Unorm,
                Some(_) => false,
            }
        }),
{
}

/// The layer that a tile is read from is there and not empty.
pub open spec fn has_layer(
    request: AtlasTileReadbackRequest,
    readbacks: Seq<TextureReadback>,
) -> bool {
    &&& request.atlas_layer < readbacks.len()
    &&& readbacks[request.atlas_layer as int].width > 0
    &&& readbacks[request.atlas_layer as int].height > 0
}

/// The error tells what is wrong with the layer of a tile: it is missing, or it is empty
/// where it should be at least as large as a slot.
pub open spec fn tells_layer(
    error: TextureIoError,
    request: AtlasTileReadbackRequest,
    readbacks: Seq<TextureReadback>,
) -> bool {
    match error {
        TextureIoError::AtlasLayerReadbackMissing { layer, available_layers } => layer
            == request.atlas_layer && layer >= readbacks.len() && available_layers
            == readbacks.len(),
        TextureIoError::AtlasReadbackExtentMismatch {
            expected_width,
            expected_height,
            actual_width,
            actual_height,
        } => request.atlas_layer < readbacks.len() && expected_width == 128 && expected_height
            == 128 && actual_width == readbacks[request.atlas_layer as int].width && actual_height
            == readbacks[request.atlas_layer as int].height && (actual_width == 0 || actual_height
            == 0),
        _ => false,
    }
}

/// What is wrong with the layers is what is wrong with that of the first tile whose layer
/// is not there or empty, and nothing if there is no such tile.
pub proof fn lemma_first_missing_layer_is_told(
    requests: Seq<AtlasTileReadbackRequest>,
    readbacks: Seq<TextureReadback>,
)
    requires
        readbacks.len() <= usize::MAX,
    ensures
        match crate::renderer::texture_io::first_layer_fault(requests, readbacks) {
            None => forall|i: int|
                0 <= i < requests.len() ==> has_layer(#[trigger] requests[i], readbacks),
            Some(error) => exists|i: int|
                0 <= i < requests.len() && !has_layer(#[trigger] requests[i], readbacks)
                    && tells_layer(error, requests[i], readbacks) && forall|j: int|
                    0 <= j < i ==> has_layer(#[trigger] requests[j], readbacks),
        },
    decreases requests.len(),
{
    if requests.len() > 0 {
        let shorter = requests.drop_last();
        lemma_first_missing_layer_is_told(shorter, readbacks);
        match crate::renderer::texture_io::first_layer_fault(shorter, readbacks) {
            Some(error) => {
                let i = choose|i: int|
                    0 <= i < shorter.len() && !has_layer(#[trigger] shorter[i], readbacks)
                        && tells_layer(error, shorter[i], readbacks) && forall|j: int|
                        0 <= j < i ==> has_layer(#[trigger] shorter[j], readbacks);
                assert(requests[i] == shorter[i]);
                assert forall|j: int| 0 <= j < i implies has_layer(
                    #[trigger] requests[j],
                    readbacks,
                ) by {
                    assert(requests[j] == shorter[j]);
                }
            },
            None => {
                assert forall|j: int| 0 <= j < shorter.len() implies has_layer(
                    #[trigger] requests[j],
                    readbacks,
                ) by {
                    assert(requests[j] == shorter[j]);
                }
                assert(requests[requests.len() - 1] == requests.last());
            },
        }
    }
}

/// The layer that a tile is exported from is there and not empty.
pub open spec fn has_export_layer(
    tile: TileImageExportTile,
    readbacks: Seq<TextureReadback>,
) -> bool {
    &&& tile.atlas_layer < readbacks.len()
    &&& readbacks[tile.atlas_layer as int].width > 0
    &&& readbacks[tile.atlas_layer as int].height > 0
}

/// An export fails for its layers exactly if some tile has a layer that is not there or is
/// empty, and the error is that of the first such tile: a missing layer is named, and of
/// an empty one the size is told.
pub proof fn lemma_first_missing_export_layer_is_told(
    tiles: Seq<TileImageExportTile>,
    readbacks: Seq<TextureReadback>,
)
    requires
        readbacks.len() <= usize::MAX,
    ensures
        match crate::renderer::tile_image_export::first_export_fault(tiles, readbacks) {
            None => forall|i: int|
                0 <= i < tiles.len() ==> has_export_layer(#[trigger] tiles[i], readbacks),
            Some(error) => exists|i: int|
                0 <= i < tiles.len() && !has_export_layer(#[trigger] tiles[i], readbacks)
                    && tells_export_layer(error, tiles[i], readbacks) && forall|j: int|
                    0 <= j < i ==> has_export_layer(#[trigger] tiles[j], readbacks),
        },
    decreases tiles.len(),
{
    if tiles.len() > 0 {
        let shorter = tiles.drop_last();
        lemma_first_missing_export_layer_is_told(shorter, readbacks);
        match crate::renderer::tile_image_export::first_export_fault(shorter, readbacks) {
            Some(error) => {
                let i = choose|i: int|
                    0 <= i < shorter.len() && !has_export_layer(#[trigger] shorter[i], readbacks)
                        && tells_export_layer(error, shorter[i], readbacks) && forall|j: int|
                        0 <= j < i ==> has_export_layer(#[trigger] shorter[j], readbacks);
                assert(tiles[i] == shorter[i]);
                assert forall|j: int| 0 <= j < i implies has_export_layer(
                    #[trigger] tiles[j],
                    readbacks,
                ) by {
                    assert(tiles[j] == shorter[j]);
                }
            },
            None => {
                assert forall|j: int| 0 <= j < shorter.len() implies has_export_layer(
                    #[trigger] tiles[j],
                    readbacks,
                ) by {
                    assert(tiles[j] == shorter[j]);
                }
                assert(tiles[tiles.len() - 1] == tiles.last());
            },
        }
    }
}

/// The error tells what is wrong with the layer of a tile.
pub open spec fn tells_export_layer(
    error: TextureIoError,
    tile: TileImageExportTile,
    readbacks: Seq<TextureReadback>,
) -> bool {
    match error {
        TextureIoError::AtlasLayerReadbackMissing { layer, available_layers } => layer
            == tile.atlas_layer && layer >= readbacks.len() && available_layers == readbacks.len(),
        TextureIoError::AtlasReadbackExtentMismatch { actual_width, actual_height, .. } => {
            &&& tile.atlas_layer < readbacks.len()
            &&& actual_width == readbacks[tile.atlas_layer as int].width
            &&& actual_height == readbacks[tile.atlas_layer as int].height
            &&& actual_width == 0 || actual_height == 0
        },
        _ => false,
    }
}

} // verus!
