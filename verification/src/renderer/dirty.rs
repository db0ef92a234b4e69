//! Dirty-region tracking and propagation.
//!
//! Layers are marked dirty in full or by rectangles. The marks are turned into
//! sets of tiles, and carried up from the layers to the groups that hold them.
use vstd::prelude::*;

use crate::collections::{Key, KeyMap, KeySet};
use crate::render_protocol::RenderNodeSnapshot;
use crate::renderer::render_tree::collect_node_dirty_rects;
use crate::renderer::resolver::RenderDataResolver;

use crate::tiles::TILE_IMAGE;

verus! {

broadcast use crate::collections::group_viewed;

/// The position of a tile in the grid of the document.
#[derive(Debug, Clone, Copy, PartialEq, Eq, Hash, Structural)]
pub struct TileCoord {
    pub tile_x: u32,
    pub tile_y: u32,
}

impl Key for TileCoord {
    fn same(&self, other: &Self) -> (same: bool) {
        self.tile_x == other.tile_x && self.tile_y == other.tile_y
    }
}

/// A rectangle of document pixels, without its right and lower edge.
#[derive(Debug, Clone, Copy, PartialEq, Eq, Structural)]
pub struct DirtyRect {
    pub min_x: i32,
    pub min_y: i32,
    pub max_x: i32,
    pub max_y: i32,
}

/// The dirty tiles of something: all of them, or some.
#[derive(Debug)]
pub enum DirtyTileMask {
    Full,
    Partial(KeySet<TileCoord>),
}

/// The dirty area of something: all of it, or some rectangles.
#[derive(Debug, Clone, PartialEq, Eq)]
pub enum DirtyRectMask {
    Full,
    Rects(Vec<DirtyRect>),
}

/// Names a node of the render tree.
#[derive(Debug, Clone, Copy, PartialEq, Eq, Hash, Structural)]
pub enum RenderNodeKey {
    Leaf(u64),
    Group(u64),
}

impl Key for RenderNodeKey {
    fn same(&self, other: &Self) -> (same: bool) {
        match (self, other) {
            (RenderNodeKey::Leaf(left), RenderNodeKey::Leaf(right)) => *left == *right,
            (RenderNodeKey::Group(left), RenderNodeKey::Group(right)) => *left == *right,
            _ => false,
        }
    }
}

/// A set of dirty tiles, or all of them.
#[verifier::ext_equal]
pub enum TileMaskModel {
    Full,
    Partial(Set<TileCoord>),
}

impl View for DirtyTileMask {
    type V = TileMaskModel;

    open spec fn view(&self) -> TileMaskModel {
        match self {
            DirtyTileMask::Full => TileMaskModel::Full,
            DirtyTileMask::Partial(tiles) => TileMaskModel::Partial(tiles@),
        }
    }
}

/// A list of dirty rectangles, or everything.
#[verifier::ext_equal]
pub enum RectMaskModel {
    Full,
    Rects(Seq<DirtyRect>),
}

impl View for DirtyRectMask {
    type V = RectMaskModel;

    open spec fn view(&self) -> RectMaskModel {
        match self {
            DirtyRectMask::Full => RectMaskModel::Full,
            DirtyRectMask::Rects(rects) => RectMaskModel::Rects(rects@),
        }
    }
}

/// A copy of a list of rectangles.
pub fn copy_rects(rects: &Vec<DirtyRect>) -> (copy: Vec<DirtyRect>)
    ensures
        copy@ == rects@,
{
    let mut copy: Vec<DirtyRect> = Vec::new();
    let mut index: usize = 0;
    while index < rects.len()
        invariant
            index <= rects@.len(),
            copy@ == rects@.take(index as int),
        decreases rects@.len() - index,
    {
        copy.push(rects[index]);
        index += 1;
        assert(copy@ =~= rects@.take(index as int));
    }
    assert(copy@ =~= rects@);
    copy
}

impl DirtyTileMask {
    /// A mask with the same tiles.
    pub fn duplicate(&self) -> (copy: Self)
        ensures
            copy@ == self@,
    {
        match self {
            DirtyTileMask::Full => DirtyTileMask::Full,
            DirtyTileMask::Partial(tiles) => DirtyTileMask::Partial(tiles.duplicate()),
        }
    }
}

impl DirtyRectMask {
    /// A mask with the same rectangles.
    pub fn duplicate(&self) -> (copy: Self)
        ensures
            copy@ == self@,
    {
        match self {
            DirtyRectMask::Full => DirtyRectMask::Full,
            DirtyRectMask::Rects(rects) => DirtyRectMask::Rects(copy_rects(rects)),
        }
    }
}

impl DirtyRect {
    /// The rectangle holds no pixel.
    pub open spec fn is_empty_rect(&self) -> bool {
        self.min_x >= self.max_x || self.min_y >= self.max_y
    }

    /// The rectangle holds the pixel.
    pub open spec fn holds(&self, x: int, y: int) -> bool {
        self.min_x <= x < self.max_x && self.min_y <= y < self.max_y
    }
}

/// The tile holds a pixel of the rectangle. Pixels with a negative coordinate
/// lie in no tile.
pub open spec fn tile_meets_rect(rect: DirtyRect, tile: TileCoord) -> bool {
    exists|x: int, y: int| #[trigger]
        rect.holds(x, y) && x >= 0 && y >= 0 && x / (TILE_IMAGE as int) == tile.tile_x && y / (
        TILE_IMAGE as int) == tile.tile_y
}

/// The tiles that a rectangle meets.
pub open spec fn rect_tiles(rect: DirtyRect) -> Set<TileCoord> {
    Set::new(|tile: TileCoord| tile_meets_rect(rect, tile))
}

/// The tiles that any of several rectangles meets.
pub open spec fn rects_tiles(rects: Seq<DirtyRect>) -> Set<TileCoord> {
    Set::new(
        |tile: TileCoord| exists|i: int| 0 <= i < rects.len() && tile_meets_rect(#[trigger] rects[i], tile),
    )
}

/// The tile range that a rectangle meets along one axis.
proof fn lemma_axis(min: int, max: int, tile: int)
    requires
        min < max,
        max > 0,
    ensures
        (exists|p: int|
            min <= p < max && p >= 0 && #[trigger] (p / (TILE_IMAGE as int)) == tile) <==> (if min > 0 {
            min
        } else {
            0
        }) / 126 <= tile <= (max - 1) / 126,
{
    let low = if min > 0 {
        min
    } else {
        0
    };
    if low / 126 <= tile <= (max - 1) / 126 {
        let p = if low > tile * 126 {
            low
        } else {
            tile * 126
        };
        assert(min <= p < max && p >= 0 && p / (TILE_IMAGE as int) == tile);
    }
}

/// Whether a tile meets a rectangle can be told axis by axis.
proof fn lemma_tile_meets_rect(rect: DirtyRect, tile: TileCoord)
    ensures
        tile_meets_rect(rect, tile) <==> !rect.is_empty_rect() && rect.max_x > 0 && rect.max_y > 0
            && low_tile(rect.min_x) <= tile.tile_x <= (rect.max_x - 1) / 126 && low_tile(rect.min_y)
            <= tile.tile_y <= (rect.max_y - 1) / 126,
{
    if tile_meets_rect(rect, tile) {
        let (x, y) = choose|x: int, y: int| #[trigger]
            rect.holds(x, y) && x >= 0 && y >= 0 && x / (TILE_IMAGE as int) == tile.tile_x && y / (
            TILE_IMAGE as int) == tile.tile_y;
        assert(rect.holds(x, y));
    } else if !rect.is_empty_rect() && rect.max_x > 0 && rect.max_y > 0 {
        lemma_axis(rect.min_x as int, rect.max_x as int, tile.tile_x as int);
        lemma_axis(rect.min_y as int, rect.max_y as int, tile.tile_y as int);
        if low_tile(rect.min_x) <= tile.tile_x <= (rect.max_x - 1) / 126 && low_tile(rect.min_y)
            <= tile.tile_y <= (rect.max_y - 1) / 126 {
            let x = choose|p: int|
                rect.min_x <= p < rect.max_x && p >= 0 && #[trigger] (p / (TILE_IMAGE as int))
                    == tile.tile_x;
            let y = choose|p: int|
                rect.min_y <= p < rect.max_y && p >= 0 && #[trigger] (p / (TILE_IMAGE as int))
                    == tile.tile_y;
            assert(rect.holds(x, y));
        }
    }
}

/// The first tile from a coordinate on.
pub open spec fn low_tile(min: i32) -> int {
    if min > 0 {
        min as int / 126
    } else {
        0
    }
}

/// The tiles in the rows above `row`, and in `row` left of `column`.
spec fn tiles_before(rect: DirtyRect, row: int, column: int) -> Set<TileCoord> {
    Set::new(
        |tile: TileCoord|
            tile_meets_rect(rect, tile) && (tile.tile_y < row || tile.tile_y == row && tile.tile_x
                < column),
    )
}

/// The tiles that a rectangle meets.
pub fn dirty_rect_to_tile_coords(rect: DirtyRect) -> (tiles: KeySet<TileCoord>)
    ensures
        tiles@ == rect_tiles(rect),
{
    if rect.min_x >= rect.max_x || rect.min_y >= rect.max_y || rect.max_x <= 0 || rect.max_y <= 0 {
        let tiles: KeySet<TileCoord> = KeySet::new();
        proof {
            assert forall|tile: TileCoord| !rect_tiles(rect).contains(tile) by {
                lemma_tile_meets_rect(rect, tile);
            }
            assert(tiles@ =~= rect_tiles(rect));
        }
        return tiles;
    }
    let first_x: u32 = if rect.min_x > 0 {
        rect.min_x as u32 / TILE_IMAGE
    } else {
        0
    };
    let first_y: u32 = if rect.min_y > 0 {
        rect.min_y as u32 / TILE_IMAGE
    } else {
        0
    };
    let last_x: u32 = (rect.max_x - 1) as u32 / TILE_IMAGE;
    let last_y: u32 = (rect.max_y - 1) as u32 / TILE_IMAGE;
    let mut tiles: Vec<TileCoord> = Vec::new();
    let mut tile_y: u32 = first_y;
    proof {
        assert forall|tile: TileCoord| !tiles_before(rect, first_y as int, 0).contains(tile) by {
            lemma_tile_meets_rect(rect, tile);
        }
        assert(tiles@.to_set() =~= tiles_before(rect, first_y as int, 0));
    }
    while tile_y <= last_y
        invariant
            !rect.is_empty_rect(),
            rect.max_x > 0,
            rect.max_y > 0,
            first_x == low_tile(rect.min_x),
            first_y == low_tile(rect.min_y),
            last_x == (rect.max_x - 1) / 126,
            last_y == (rect.max_y - 1) / 126,
            first_y <= tile_y,
            tiles@.no_duplicates(),
            tiles@.to_set() == tiles_before(rect, tile_y as int, 0),
        decreases last_y + 1 - tile_y,
    {
        let mut tile_x: u32 = first_x;
        proof {
            assert forall|tile: TileCoord|
                tiles_before(rect, tile_y as int, 0).contains(tile) == tiles_before(
                    rect,
                    tile_y as int,
                    tile_x as int,
                ).contains(tile) by {
                lemma_tile_meets_rect(rect, tile);
            }
            assert(tiles_before(rect, tile_y as int, 0) =~= tiles_before(
                rect,
                tile_y as int,
                tile_x as int,
            ));
        }
        while tile_x <= last_x
            invariant
                !rect.is_empty_rect(),
                rect.max_x > 0,
                rect.max_y > 0,
                first_x == low_tile(rect.min_x),
                first_y == low_tile(rect.min_y),
                last_x == (rect.max_x - 1) / 126,
                last_y == (rect.max_y - 1) / 126,
                first_y <= tile_y <= last_y,
                first_x <= tile_x,
                tiles@.no_duplicates(),
                tiles@.to_set() == tiles_before(rect, tile_y as int, tile_x as int),
            decreases last_x + 1 - tile_x,
        {
            let tile = TileCoord { tile_x, tile_y };
            let ghost before = tiles@;
            proof {
                assert(!before.to_set().contains(tile));
                assert(!before.contains(tile));
                lemma_tile_meets_rect(rect, tile);
                crate::collections::lemma_push_set(before, tile);
                assert forall|other: TileCoord|
                    tiles_before(rect, tile_y as int, tile_x + 1).contains(other)
                        == before.to_set().insert(tile).contains(other) by {
                    lemma_tile_meets_rect(rect, other);
                }
            }
            tiles.push(tile);
            proof {
                assert(tiles@.to_set() =~= tiles_before(rect, tile_y as int, tile_x + 1));
            }
            tile_x += 1;
        }
        proof {
            assert forall|tile: TileCoord|
                tiles_before(rect, tile_y as int, tile_x as int).contains(tile) == tiles_before(
                    rect,
                    tile_y + 1,
                    0,
                ).contains(tile) by {
                lemma_tile_meets_rect(rect, tile);
            }
            assert(tiles@.to_set() =~= tiles_before(rect, tile_y + 1, 0));
        }
        tile_y += 1;
    }
    proof {
        assert forall|tile: TileCoord|
            tiles_before(rect, tile_y as int, 0).contains(tile) == rect_tiles(rect).contains(
                tile,
            ) by {
            lemma_tile_meets_rect(rect, tile);
        }
        assert(tiles@.to_set() =~= rect_tiles(rect));
    }
    KeySet::from_distinct(tiles)
}

/// The tiles that any of several rectangles meets.
pub fn dirty_rects_to_tile_coords(dirty_rects: &Vec<DirtyRect>) -> (tiles: KeySet<TileCoord>)
    ensures
        tiles@ == rects_tiles(dirty_rects@),
{
    let mut tiles: KeySet<TileCoord> = KeySet::new();
    let mut index: usize = 0;
    proof {
        assert(tiles@ =~= rects_tiles(dirty_rects@.take(0)));
    }
    while index < dirty_rects.len()
        invariant
            index <= dirty_rects@.len(),
            tiles@ == rects_tiles(dirty_rects@.take(index as int)),
        decreases dirty_rects@.len() - index,
    {
        let more = dirty_rect_to_tile_coords(dirty_rects[index]);
        tiles.extend(&more);
        proof {
            let shorter = dirty_rects@.take(index as int);
            let longer = dirty_rects@.take(index + 1);
            assert forall|tile: TileCoord|
                rects_tiles(longer).contains(tile) == (rects_tiles(shorter).contains(tile)
                    || rect_tiles(dirty_rects@[index as int]).contains(tile)) by {
                if rects_tiles(longer).contains(tile) {
                    let i = choose|i: int|
                        0 <= i < longer.len() && tile_meets_rect(#[trigger] longer[i], tile);
                    if i < index {
                        assert(shorter[i] == longer[i]);
                    }
                }
                if rects_tiles(shorter).contains(tile) {
                    let i = choose|i: int|
                        0 <= i < shorter.len() && tile_meets_rect(#[trigger] shorter[i], tile);
                    assert(longer[i] == shorter[i]);
                }
                assert(longer[index as int] == dirty_rects@[index as int]);
            }
            assert(tiles@ =~= rects_tiles(longer));
        }
        index += 1;
    }
    proof {
        assert(dirty_rects@.take(index as int) =~= dirty_rects@);
    }
    tiles
}

/// The dirty marks of a document.
#[verifier::ext_equal]
pub struct DirtyModel {
    pub masks: Map<u64, TileMaskModel>,
    pub rects: Map<u64, RectMaskModel>,
    pub document_composite_dirty: bool,
}

/// Remembers which layers are dirty, and whether the document has to be
/// composed anew.
#[derive(Debug)]
pub struct DirtyStateStore {
    layer_dirty_masks: KeyMap<u64, DirtyTileMask>,
    layer_dirty_rects: KeyMap<u64, DirtyRectMask>,
    document_composite_dirty: bool,
}

impl View for DirtyStateStore {
    type V = DirtyModel;

    closed spec fn view(&self) -> DirtyModel {
        DirtyModel {
            masks: crate::collections::viewed(self.layer_dirty_masks@),
            rects: crate::collections::viewed(self.layer_dirty_rects@),
            document_composite_dirty: self.document_composite_dirty,
        }
    }
}

impl DirtyModel {
    /// No layer is dirty.
    pub open spec fn clean(document_composite_dirty: bool) -> DirtyModel {
        DirtyModel { masks: Map::empty(), rects: Map::empty(), document_composite_dirty }
    }

    /// The layer is dirty in full.
    pub open spec fn full(&self, layer_id: u64) -> bool {
        ||| (self.masks.dom().contains(layer_id) && self.masks[layer_id] == TileMaskModel::Full)
        ||| (self.rects.dom().contains(layer_id) && self.rects[layer_id] == RectMaskModel::Full)
    }

    /// The marks after a layer has been marked in full.
    pub open spec fn with_full(&self, layer_id: u64) -> DirtyModel {
        DirtyModel {
            masks: self.masks.insert(layer_id, TileMaskModel::Full),
            rects: self.rects.insert(layer_id, RectMaskModel::Full),
            ..*self
        }
    }

    /// The rectangles of a layer that is not dirty in full.
    pub open spec fn rects_of(&self, layer_id: u64) -> Seq<DirtyRect> {
        if self.rects.dom().contains(layer_id) {
            match self.rects[layer_id] {
                RectMaskModel::Full => Seq::empty(),
                RectMaskModel::Rects(rects) => rects,
            }
        } else {
            Seq::empty()
        }
    }

    /// Marking this rectangle says something new: it holds a pixel, and the
    /// layer is not dirty in full already.
    pub open spec fn takes(&self, layer_id: u64, rect: DirtyRect) -> bool {
        !rect.is_empty_rect() && !self.full(layer_id)
    }

    /// The marks after a rectangle of a layer has been marked.
    pub open spec fn with_rect(&self, layer_id: u64, rect: DirtyRect) -> DirtyModel {
        if self.takes(layer_id, rect) {
            DirtyModel {
                rects: self.rects.insert(
                    layer_id,
                    RectMaskModel::Rects(self.rects_of(layer_id).push(rect)),
                ),
                ..*self
            }
        } else {
            *self
        }
    }

    /// The marks of the layers in `live` alone.
    pub open spec fn retained(&self, live: Set<u64>) -> DirtyModel {
        DirtyModel {
            masks: self.masks.restrict(live),
            rects: self.rects.restrict(live),
            ..*self
        }
    }

    /// The area of a layer that is dirty once the effects of the layer are
    /// taken into account, if any is.
    pub open spec fn resolved_area<R: RenderDataResolver>(
        &self,
        resolver: &R,
        layer_id: u64,
    ) -> Option<RectMaskModel> {
        if self.full(layer_id) {
            Some(RectMaskModel::Full)
        } else if self.rects.dom().contains(layer_id) && resolver.propagated(
            layer_id,
            self.rects_of(layer_id),
        ).len() > 0 {
            Some(RectMaskModel::Rects(resolver.propagated(layer_id, self.rects_of(layer_id))))
        } else {
            None
        }
    }
}

impl Default for DirtyStateStore {
    fn default() -> (store: Self)
        ensures
            store@ == DirtyModel::clean(false),
    {
        DirtyStateStore::with_document_dirty(false)
    }
}

impl DirtyStateStore {
    pub fn with_document_dirty(document_composite_dirty: bool) -> (store: Self)
        ensures
            store@ == DirtyModel::clean(document_composite_dirty),
    {
        let store = DirtyStateStore {
            layer_dirty_masks: KeyMap::new(),
            layer_dirty_rects: KeyMap::new(),
            document_composite_dirty,
        };
        assert(store@ =~= DirtyModel::clean(document_composite_dirty));
        store
    }

    /// Marks a layer dirty in full.
    pub fn mark_layer_full(&mut self, layer_id: u64)
        ensures
            final(self)@ == old(self)@.with_full(layer_id),
    {
        self.layer_dirty_masks.insert(layer_id, DirtyTileMask::Full);
        self.layer_dirty_rects.insert(layer_id, DirtyRectMask::Full);
    }

    /// Marks a rectangle of a layer dirty, and tells whether that says
    /// something new.
    pub fn mark_layer_rect(&mut self, layer_id: u64, dirty_rect: DirtyRect) -> (marked: bool)
        ensures
            marked == old(self)@.takes(layer_id, dirty_rect),
            final(self)@ == old(self)@.with_rect(layer_id, dirty_rect),
    {
        if dirty_rect.min_x >= dirty_rect.max_x || dirty_rect.min_y >= dirty_rect.max_y {
            return false;
        }
        match self.layer_dirty_masks.get(layer_id) {
            Some(mask) => {
                assert(self@.masks[layer_id] == mask@);
                match mask {
                    DirtyTileMask::Full => {
                        return false;
                    },
                    _ => {},
                }
            },
            None => {},
        }
        let ghost start = self@;
        match self.layer_dirty_rects.get(layer_id) {
            Some(mask) => {
                assert(self@.rects[layer_id] == mask@);
                match mask {
                    DirtyRectMask::Full => {
                        return false;
                    },
                    _ => {},
                }
            },
            None => {},
        }
        let existing = self.layer_dirty_rects.remove(layer_id);
        let mut rects: Vec<DirtyRect> = match existing {
            Some(DirtyRectMask::Rects(rects)) => rects,
            _ => Vec::new(),
        };
        proof {
            assert(rects@ =~= start.rects_of(layer_id));
        }
        rects.push(dirty_rect);
        self.layer_dirty_rects.insert(layer_id, DirtyRectMask::Rects(rects));
        proof {
            assert(self@.rects =~= start.rects.remove(layer_id).insert(
                layer_id,
                RectMaskModel::Rects(rects@),
            ));
            assert(self@ =~= start.with_rect(layer_id, dirty_rect));
        }
        true
    }

    pub fn is_document_composite_dirty(&self) -> (dirty: bool)
        ensures
            dirty == self@.document_composite_dirty,
    {
        self.document_composite_dirty
    }

    pub fn mark_document_composite_dirty(&mut self)
        ensures
            final(self)@ == (DirtyModel { document_composite_dirty: true, ..old(self)@ }),
    {
        self.document_composite_dirty = true;
    }

    pub fn clear_document_composite_dirty(&mut self)
        ensures
            final(self)@ == (DirtyModel { document_composite_dirty: false, ..old(self)@ }),
    {
        self.document_composite_dirty = false;
    }

    /// Forgets the marks of all layers.
    pub fn clear_layer_dirty_masks(&mut self)
        ensures
            final(self)@ == DirtyModel::clean(old(self)@.document_composite_dirty),
    {
        self.layer_dirty_masks.clear();
        self.layer_dirty_rects.clear();
        assert(self@ =~= DirtyModel::clean(old(self)@.document_composite_dirty));
    }

    /// Forgets the marks of the layers that are not in `live_layer_ids`.
    pub fn retain_layers(&mut self, live_layer_ids: &KeySet<u64>)
        ensures
            final(self)@ == old(self)@.retained(live_layer_ids@),
    {
        self.layer_dirty_masks.retain_keys(live_layer_ids);
        self.layer_dirty_rects.retain_keys(live_layer_ids);
        proof {
            crate::collections::lemma_viewed_restrict(
                old(self).layer_dirty_masks@,
                live_layer_ids@,
            );
            crate::collections::lemma_viewed_restrict(
                old(self).layer_dirty_rects@,
                live_layer_ids@,
            );
        }
    }

    /// The dirty areas of all layers, once the effects of the layers are taken
    /// into account. A layer that is dirty in full is not asked about its
    /// effects.
    pub fn resolve_layer_dirty_rect_masks<R: RenderDataResolver>(
        &self,
        render_data_resolver: &R,
    ) -> (areas: KeyMap<u64, DirtyRectMask>)
        ensures
            forall|layer_id: u64| #[trigger]
                areas@.dom().contains(layer_id) <==> self@.resolved_area(
                    render_data_resolver,
                    layer_id,
                ) is Some,
            forall|layer_id: u64| #[trigger]
                areas@.dom().contains(layer_id) ==> self@.resolved_area(
                    render_data_resolver,
                    layer_id,
                ) == Some(areas@[layer_id]@),
    {
        let mut areas: KeyMap<u64, DirtyRectMask> = KeyMap::new();
        let full_ids = self.layer_dirty_masks.keys();
        let mut index: usize = 0;
        while index < full_ids.len()
            invariant
                index <= full_ids@.len(),
                full_ids@.to_set() == self.layer_dirty_masks@.dom(),
                forall|layer_id: u64| #[trigger]
                    areas@.dom().contains(layer_id) <==> full_ids@.take(index as int).contains(
                        layer_id,
                    ) && self@.masks[layer_id] == TileMaskModel::Full,
                forall|layer_id: u64| #[trigger]
                    areas@.dom().contains(layer_id) ==> areas@[layer_id]@ == RectMaskModel::Full,
            decreases full_ids@.len() - index,
        {
            let layer_id: u64 = full_ids[index];
            let ghost before = areas@;
            match self.layer_dirty_masks.get(layer_id) {
                Some(mask) => {
                    assert(self@.masks[layer_id] == mask@);
                    match mask {
                        DirtyTileMask::Full => {
                            areas.insert(layer_id, DirtyRectMask::Full);
                        },
                        _ => {},
                    }
                },
                None => {
                    proof {
                        assert(full_ids@.to_set().contains(layer_id));
                    }
                },
            }
            index += 1;
            proof {
                lemma_take_contains(full_ids@, index as int);
            }
        }
        proof {
            assert(full_ids@.take(index as int) =~= full_ids@);
            assert forall|layer_id: u64| #[trigger]
                areas@.dom().contains(layer_id) <==> self@.masks.dom().contains(layer_id)
                    && self@.masks[layer_id] == TileMaskModel::Full by {
                assert(full_ids@.contains(layer_id) == full_ids@.to_set().contains(layer_id));
            }
        }
        let ghost first = areas@;
        let rect_ids = self.layer_dirty_rects.keys();
        let mut position: usize = 0;
        proof {
            assert(rect_ids@.take(0) =~= Seq::empty());
        }
        while position < rect_ids.len()
            invariant
                position <= rect_ids@.len(),
                rect_ids@.no_duplicates(),
                rect_ids@.to_set() == self.layer_dirty_rects@.dom(),
                forall|layer_id: u64| #[trigger]
                    first.dom().contains(layer_id) <==> self@.masks.dom().contains(layer_id)
                        && self@.masks[layer_id] == TileMaskModel::Full,
                forall|layer_id: u64| #[trigger]
                    first.dom().contains(layer_id) ==> first[layer_id]@ == RectMaskModel::Full,
                forall|layer_id: u64| #[trigger]
                    areas@.dom().contains(layer_id) <==> first.dom().contains(layer_id) || (
                    rect_ids@.take(position as int).contains(layer_id) && self@.resolved_area(
                        render_data_resolver,
                        layer_id,
                    ) is Some),
                forall|layer_id: u64| #[trigger]
                    areas@.dom().contains(layer_id) ==> self@.resolved_area(
                        render_data_resolver,
                        layer_id,
                    ) == Some(areas@[layer_id]@),
            decreases rect_ids@.len() - position,
        {
            let layer_id: u64 = rect_ids[position];
            let ghost before = areas@;
            proof {
                assert(rect_ids@.to_set().contains(layer_id));
                lemma_take_contains(rect_ids@, position + 1);
                if before.dom().contains(layer_id) && !first.dom().contains(layer_id) {
                    let seen = rect_ids@.take(position as int);
                    let i = seen.index_of(layer_id);
                    assert(rect_ids@[i] == layer_id);
                }
            }
            if !areas.contains_key(layer_id) {
                match self.layer_dirty_rects.get(layer_id) {
                    Some(mask) => {
                        assert(self@.rects[layer_id] == mask@);
                        match mask {
                            DirtyRectMask::Full => {
                                areas.insert(layer_id, DirtyRectMask::Full);
                            },
                            DirtyRectMask::Rects(incoming_rects) => {
                                let propagated = render_data_resolver.propagate_layer_dirty_rects(
                                    layer_id,
                                    incoming_rects,
                                );
                                if propagated.len() > 0 {
                                    areas.insert(layer_id, DirtyRectMask::Rects(propagated));
                                }
                            },
                        }
                    },
                    None => {},
                }
            }
            position += 1;
        }
        proof {
            assert(rect_ids@.take(position as int) =~= rect_ids@);
            assert forall|layer_id: u64| #[trigger]
                areas@.dom().contains(layer_id) <==> self@.resolved_area(
                    render_data_resolver,
                    layer_id,
                ) is Some by {
                assert(rect_ids@.contains(layer_id) == rect_ids@.to_set().contains(layer_id));
            }
        }
        areas
    }
}

/// One more element of a sequence is one more that its prefix contains.
proof fn lemma_take_contains(items: Seq<u64>, count: int)
    requires
        0 < count <= items.len(),
    ensures
        forall|item: u64| #[trigger]
            items.take(count).contains(item) <==> items.take(count - 1).contains(item) || item
                == items[count - 1],
{
    let shorter = items.take(count - 1);
    let longer = items.take(count);
    assert forall|item: u64| #[trigger] longer.contains(item) <==> shorter.contains(item) || item
        == items[count - 1] by {
        if longer.contains(item) {
            let i = longer.index_of(item);
            if i < count - 1 {
                assert(shorter[i] == item);
            }
        }
        if shorter.contains(item) {
            let i = shorter.index_of(item);
            assert(longer[i] == item);
        }
        assert(longer[count - 1] == items[count - 1]);
    }
}

/// A group is composed in full once at least this share of its tiles is dirty:
/// two tiles out of five.
pub const GROUP_FULL_DIRTY_TILES: u128 = 2;

pub const GROUP_FULL_DIRTY_OUT_OF: u128 = 5;

/// So many dirty tiles are enough to compose a group in full.
pub open spec fn reaches_full(dirty_tiles: nat, group_tiles: nat) -> bool {
    dirty_tiles * GROUP_FULL_DIRTY_OUT_OF >= group_tiles * GROUP_FULL_DIRTY_TILES
}

/// The dirty tiles of a node, if any are dirty.
pub open spec fn node_tiles(key: RenderNodeKey, area: RectMaskModel, group_tiles: nat) -> Option<
    TileMaskModel,
> {
    match area {
        RectMaskModel::Full => Some(TileMaskModel::Full),
        RectMaskModel::Rects(rects) => {
            let tiles = rects_tiles(rects);
            if tiles == Set::<TileCoord>::empty() {
                None
            } else if key is Group && reaches_full(tiles.len(), group_tiles) {
                Some(TileMaskModel::Full)
            } else {
                Some(TileMaskModel::Partial(tiles))
            }
        },
    }
}

/// Carries dirty areas from the layers up to the groups.
#[derive(Debug, Clone, Copy, PartialEq, Eq, Structural)]
pub struct DirtyPropagationEngine {
    pub group_tile_count: usize,
}

impl DirtyPropagationEngine {
    /// The engine for a document whose groups have so many tiles.
    pub fn new(group_tile_count: usize) -> (engine: Self)
        ensures
            engine.group_tile_count == group_tile_count,
    {
        DirtyPropagationEngine { group_tile_count }
    }

    /// The areas of the dirty nodes of a tree.
    pub open spec fn areas(
        tree: RenderNodeSnapshot,
        layers: Map<u64, RectMaskModel>,
    ) -> Map<RenderNodeKey, RectMaskModel> {
        crate::renderer::render_tree::file_areas(tree, layers, Map::empty())
    }

    /// The dirty tiles of the dirty nodes of a tree.
    pub fn collect_node_tile_masks(
        &self,
        render_tree: &RenderNodeSnapshot,
        layer_dirty_rect_masks: &KeyMap<u64, DirtyRectMask>,
    ) -> (tiles: KeyMap<RenderNodeKey, DirtyTileMask>)
        ensures
            forall|key: RenderNodeKey| #[trigger]
                tiles@.dom().contains(key) <==> ({
                    let areas = Self::areas(
                        *render_tree,
                        crate::collections::viewed(layer_dirty_rect_masks@),
                    );
                    areas.dom().contains(key) && node_tiles(
                        key,
                        areas[key],
                        self.group_tile_count as nat,
                    ) is Some
                }),
            forall|key: RenderNodeKey| #[trigger]
                tiles@.dom().contains(key) ==> node_tiles(
                    key,
                    Self::areas(
                        *render_tree,
                        crate::collections::viewed(layer_dirty_rect_masks@),
                    )[key],
                    self.group_tile_count as nat,
                ) == Some(tiles@[key]@),
    {
        let ghost layers = crate::collections::viewed(layer_dirty_rect_masks@);
        let mut node_dirty_rects: KeyMap<RenderNodeKey, DirtyRectMask> = KeyMap::new();
        let root = collect_node_dirty_rects(
            render_tree,
            layer_dirty_rect_masks,
            &mut node_dirty_rects,
        );
        let ghost areas = crate::collections::viewed(node_dirty_rects@);
        proof {
            assert(areas == Self::areas(*render_tree, layers));
        }
        let keys = node_dirty_rects.keys();
        let mut tiles: KeyMap<RenderNodeKey, DirtyTileMask> = KeyMap::new();
        let mut index: usize = 0;
        while index < keys.len()
            invariant
                index <= keys@.len(),
                areas == crate::collections::viewed(node_dirty_rects@),
                keys@.to_set() == node_dirty_rects@.dom(),
                keys@.no_duplicates(),
                forall|key: RenderNodeKey| #[trigger]
                    tiles@.dom().contains(key) <==> keys@.take(index as int).to_set().contains(key)
                        && node_tiles(key, areas[key], self.group_tile_count as nat) is Some,
                forall|key: RenderNodeKey| #[trigger]
                    tiles@.dom().contains(key) ==> node_tiles(
                        key,
                        areas[key],
                        self.group_tile_count as nat,
                    ) == Some(tiles@[key]@),
            decreases keys@.len() - index,
        {
            let key = keys[index];
            proof {
                assert(keys@.to_set().contains(key));
                crate::collections::lemma_take_set(keys@, index + 1);
            }
            match node_dirty_rects.get(key) {
                Some(mask) => {
                    assert(areas[key] == mask@);
                    match mask {
                        DirtyRectMask::Full => {
                            tiles.insert(key, DirtyTileMask::Full);
                        },
                        DirtyRectMask::Rects(rects) => {
                            let dirty_tiles = dirty_rects_to_tile_coords(rects);
                            if !dirty_tiles.is_empty() {
                                let is_group = match key {
                                    RenderNodeKey::Group(_) => true,
                                    RenderNodeKey::Leaf(_) => false,
                                };
                                let count: usize = dirty_tiles.len();
                                if is_group && (count as u128) * GROUP_FULL_DIRTY_OUT_OF >= (
                                self.group_tile_count as u128) * GROUP_FULL_DIRTY_TILES {
                                    tiles.insert(key, DirtyTileMask::Full);
                                } else {
                                    tiles.insert(key, DirtyTileMask::Partial(dirty_tiles));
                                }
                            }
                        },
                    }
                },
                None => {},
            }
            index += 1;
        }
        proof {
            assert(keys@.take(index as int) =~= keys@);
        }
        tiles
    }
}

/// A node that is dirty in full has all of its tiles dirty.
pub proof fn lemma_full_area_gives_full_tiles(key: RenderNodeKey, group_tiles: nat)
    ensures
        node_tiles(key, RectMaskModel::Full, group_tiles) == Some(TileMaskModel::Full),
{
}

/// A pixel of the document that lies in a dirty rectangle of a node lies in a
/// dirty tile of that node.
pub proof fn lemma_dirty_pixel_is_in_a_dirty_tile(
    key: RenderNodeKey,
    rects: Seq<DirtyRect>,
    group_tiles: nat,
    index: int,
    x: int,
    y: int,
)
    requires
        0 <= index < rects.len(),
        rects[index].holds(x, y),
        x >= 0,
        y >= 0,
    ensures
        node_tiles(key, RectMaskModel::Rects(rects), group_tiles) is Some,
        match node_tiles(key, RectMaskModel::Rects(rects), group_tiles)->0 {
            TileMaskModel::Full => true,
            TileMaskModel::Partial(tiles) => tiles.contains(
                (TileCoord { tile_x: (x / 126) as u32, tile_y: (y / 126) as u32 }),
            ),
        },
{
    let tile = TileCoord { tile_x: (x / 126) as u32, tile_y: (y / 126) as u32 };
    assert(rects[index].holds(x, y));
    assert(tile_meets_rect(rects[index], tile));
    assert(rects_tiles(rects).contains(tile));
}

} // verus!
