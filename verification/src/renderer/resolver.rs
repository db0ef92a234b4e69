//! What the renderer asks of the document.
use vstd::prelude::*;

use crate::render_protocol::ImageHandle;
use crate::renderer::dirty::{DirtyRect, TileCoord};
use crate::tiles::{TileAddress, TileKey};

verus! {

/// Where the tiles of a layer come from: the layer's image, or the buffer that
/// a stroke is being drawn into.
#[derive(Debug, Clone, Copy, PartialEq, Eq, Structural)]
pub enum ImageSource {
    LayerImage { image_handle: ImageHandle },
    BrushBuffer { stroke_session_id: u64 },
}

/// A tile of an image source, with its key.
#[derive(Debug, Clone, Copy, PartialEq, Eq, Structural)]
pub struct PlacedTile {
    pub coord: TileCoord,
    pub key: TileKey,
}

/// Which tiles of a layer have changed since a version.
#[derive(Debug)]
pub enum DirtySinceResult {
    /// Nothing has changed.
    UpToDate,
    /// The version is older than what the history goes back to.
    HistoryTruncated,
    /// These have changed.
    HasChanges(TileDirtyQuery),
}

/// The changes up to a version.
#[derive(Debug)]
pub struct TileDirtyQuery {
    pub latest_version: u64,
    pub dirty_tiles: TileDirtySet,
}

/// The tiles of a layer that have changed: all of them, or these.
#[derive(Debug)]
pub enum TileDirtySet {
    All,
    Tiles(Vec<TileCoord>),
}

/// What has changed in a layer, as a plain value.
#[verifier::ext_equal]
pub enum DirtySinceModel {
    UpToDate,
    HistoryTruncated,
    AllSince { latest_version: u64 },
    TilesSince { latest_version: u64, tiles: Seq<TileCoord> },
}

impl View for DirtySinceResult {
    type V = DirtySinceModel;

    open spec fn view(&self) -> DirtySinceModel {
        match self {
            DirtySinceResult::UpToDate => DirtySinceModel::UpToDate,
            DirtySinceResult::HistoryTruncated => DirtySinceModel::HistoryTruncated,
            DirtySinceResult::HasChanges(query) => match query.dirty_tiles {
                TileDirtySet::All => DirtySinceModel::AllSince {
                    latest_version: query.latest_version,
                },
                TileDirtySet::Tiles(tiles) => DirtySinceModel::TilesSince {
                    latest_version: query.latest_version,
                    tiles: tiles@,
                },
            },
        }
    }
}

/// The document as the renderer sees it. It does not change while a frame is
/// being planned.
///
/// The spec functions say what an implementation stands for. One that is written
/// in ordinary Rust leaves them as they are.
pub trait RenderDataResolver {
    /// The width and height of the document.
    closed spec fn size(&self) -> (u32, u32) {
        arbitrary()
    }

    /// The tiles of an image source.
    closed spec fn tiles_of(&self, image_source: ImageSource) -> Seq<PlacedTile> {
        arbitrary()
    }

    /// The tiles of an image source among some positions.
    closed spec fn tiles_among(&self, image_source: ImageSource, coords: Set<TileCoord>) -> Seq<
        PlacedTile,
    > {
        arbitrary()
    }

    /// The address of a tile of an image source.
    closed spec fn address_of(&self, image_source: ImageSource, tile_key: TileKey) -> Option<
        TileAddress,
    > {
        arbitrary()
    }

    /// The area that is dirty in a layer once the effects of the layer are
    /// taken into account.
    closed spec fn propagated(&self, layer_id: u64, incoming: Seq<DirtyRect>) -> Seq<DirtyRect> {
        arbitrary()
    }

    /// What has changed in a layer since a version.
    closed spec fn dirty_since(&self, layer_id: u64, since_version: u64) -> Option<DirtySinceModel> {
        arbitrary()
    }

    /// The version of a layer.
    closed spec fn version_of(&self, layer_id: u64) -> Option<u64> {
        arbitrary()
    }

    fn document_size(&self) -> (size: (u32, u32))
        ensures
            size == self.size(),
    ;

    fn image_source_tiles(&self, image_source: ImageSource) -> (tiles: Vec<PlacedTile>)
        ensures
            tiles@ == self.tiles_of(image_source),
    ;

    fn image_source_tiles_for_coords(
        &self,
        image_source: ImageSource,
        coords: &crate::collections::KeySet<TileCoord>,
    ) -> (tiles: Vec<PlacedTile>)
        ensures
            tiles@ == self.tiles_among(image_source, coords@),
    ;

    fn resolve_image_source_tile_address(&self, image_source: ImageSource, tile_key: TileKey) -> (
        address: Option<TileAddress>)
        ensures
            address == self.address_of(image_source, tile_key),
    ;

    fn propagate_layer_dirty_rects(&self, layer_id: u64, incoming_rects: &Vec<DirtyRect>) -> (
        propagated: Vec<DirtyRect>)
        ensures
            propagated@ == self.propagated(layer_id, incoming_rects@),
    ;

    fn layer_dirty_since(&self, layer_id: u64, since_version: u64) -> (result: Option<
        DirtySinceResult,
    >)
        ensures
            match result {
                Some(since) => self.dirty_since(layer_id, since_version) == Some(since@),
                None => self.dirty_since(layer_id, since_version) is None,
            },
    ;

    fn layer_version(&self, layer_id: u64) -> (version: Option<u64>)
        ensures
            version == self.version_of(layer_id),
    ;
}

} // verus!
