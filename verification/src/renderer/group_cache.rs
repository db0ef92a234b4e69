//! The cached image of a group: a grid of tiles that are allocated as they are
//! first needed.
use vstd::prelude::*;

use crate::collections::{KeyMap, KeySet};
use crate::model::{ImageLayout, TilePos};
use crate::render_protocol::BlendMode;
use crate::renderer::dirty::TileCoord;
use crate::renderer::draw_builders::{TileDrawInstance, TileInstanceGpu};
use crate::renderer::merge_submission::CopyExtent;
use crate::renderer::resolver::PlacedTile;
use crate::tiles::{TileAddress, TileKey, TILE_IMAGE};

verus! {

/// What a group image holds: the keys of the tiles that have been allocated.
#[verifier::ext_equal]
pub struct GroupImageModel {
    pub layout: ImageLayout,
    pub keys: Seq<Option<TileKey>>,
}

/// The image of a group.
#[derive(Debug)]
pub struct GroupImage {
    layout: ImageLayout,
    keys: Vec<Option<TileKey>>,
}

impl View for GroupImage {
    type V = GroupImageModel;

    closed spec fn view(&self) -> GroupImageModel {
        GroupImageModel { layout: self.layout, keys: self.keys@ }
    }
}

/// The position of a tile in the layout of an image.
pub open spec fn as_pos(coord: TileCoord) -> TilePos {
    TilePos { x: coord.tile_x, y: coord.tile_y }
}

impl GroupImageModel {
    /// There is a place for each tile of the size, and the number of tiles
    /// fits.
    pub open spec fn inv(&self) -> bool {
        &&& self.layout == ImageLayout::for_size(self.layout.size.x, self.layout.size.y)
        &&& self.keys.len() == self.layout.tile_count()
        &&& self.layout.tile_count() <= u32::MAX
    }

    /// The image has a tile at this position.
    pub open spec fn has(&self, coord: TileCoord) -> bool {
        self.layout.has_tile(as_pos(coord))
    }

    /// The key of a tile, if it has been allocated.
    pub open spec fn key_at(&self, coord: TileCoord) -> Option<TileKey> {
        self.keys[self.layout.index_of(as_pos(coord))]
    }

    /// The image with the key of a tile.
    pub open spec fn with_key(&self, coord: TileCoord, key: TileKey) -> GroupImageModel {
        GroupImageModel {
            layout: self.layout,
            keys: self.keys.update(self.layout.index_of(as_pos(coord)), Some(key)),
        }
    }

    /// An image of a size without tiles.
    pub open spec fn blank(size_x: u32, size_y: u32) -> GroupImageModel {
        let layout = ImageLayout::for_size(size_x, size_y);
        GroupImageModel { layout, keys: Seq::new(layout.tile_count() as nat, |i: int| None) }
    }

    /// The first `count` places that hold a key, with their positions.
    pub open spec fn placed_upto(&self, count: int) -> Seq<PlacedTile>
        decreases count,
    {
        if count <= 0 {
            Seq::empty()
        } else {
            let earlier = self.placed_upto(count - 1);
            match self.keys[count - 1] {
                Some(key) => earlier.push(
                    PlacedTile {
                        coord: TileCoord {
                            tile_x: self.layout.pos_of(count - 1).x,
                            tile_y: self.layout.pos_of(count - 1).y,
                        },
                        key,
                    },
                ),
                None => earlier,
            }
        }
    }

    /// The allocated tiles, by ascending index.
    pub open spec fn placed(&self) -> Seq<PlacedTile> {
        self.placed_upto(self.keys.len() as int)
    }
}

impl GroupImage {
    /// An image of a size, without tiles.
    pub fn new(size_x: u32, size_y: u32) -> (image: Self)
        requires
            ImageLayout::for_size(size_x, size_y).tile_count() <= u32::MAX,
        ensures
            image@ == GroupImageModel::blank(size_x, size_y),
            image@.inv(),
    {
        let layout = ImageLayout::new(size_x, size_y);
        let count: u32 = layout.tiles_per_row * layout.tiles_per_column;
        let mut keys: Vec<Option<TileKey>> = Vec::new();
        let mut index: u32 = 0;
        while index < count
            invariant
                index <= count,
                keys@.len() == index,
                forall|i: int| 0 <= i < index ==> keys@[i] is None,
            decreases count - index,
        {
            keys.push(None);
            index += 1;
        }
        let image = GroupImage { layout, keys };
        assert(image@ =~= GroupImageModel::blank(size_x, size_y));
        image
    }

    pub fn size_x(&self) -> (size: u32)
        ensures
            size == self@.layout.size.x,
    {
        self.layout.size.x
    }

    pub fn size_y(&self) -> (size: u32)
        ensures
            size == self@.layout.size.y,
    {
        self.layout.size.y
    }

    pub fn tiles_per_row(&self) -> (count: u32)
        ensures
            count == self@.layout.tiles_per_row,
    {
        self.layout.tiles_per_row
    }

    pub fn tiles_per_column(&self) -> (count: u32)
        ensures
            count == self@.layout.tiles_per_column,
    {
        self.layout.tiles_per_column
    }

    /// The key of a tile, if it has been allocated.
    pub fn get_tile(&self, coord: TileCoord) -> (key: Option<TileKey>)
        requires
            self@.inv(),
            self@.has(coord),
        ensures
            key == self@.key_at(coord),
    {
        proof {
            crate::model::lemma_index_in_grid(self.layout, as_pos(coord));
        }
        let index: u32 = coord.tile_y * self.layout.tiles_per_row + coord.tile_x;
        self.keys[index as usize]
    }

    /// Records the key of a tile.
    pub fn set_tile(&mut self, coord: TileCoord, key: TileKey)
        requires
            old(self)@.inv(),
            old(self)@.has(coord),
        ensures
            final(self)@ == old(self)@.with_key(coord, key),
            final(self)@.inv(),
    {
        proof {
            crate::model::lemma_index_in_grid(self.layout, as_pos(coord));
        }
        let index: u32 = coord.tile_y * self.layout.tiles_per_row + coord.tile_x;
        self.keys.set(index as usize, Some(key));
        assert(self@ =~= old(self)@.with_key(coord, key));
    }

    /// The allocated tiles, by ascending index.
    pub fn iter_tiles(&self) -> (tiles: Vec<PlacedTile>)
        requires
            self@.inv(),
        ensures
            tiles@ == self@.placed(),
    {
        let mut tiles: Vec<PlacedTile> = Vec::new();
        let mut index: usize = 0;
        while index < self.keys.len()
            invariant
                self@.inv(),
                index <= self.keys@.len(),
                tiles@ == self@.placed_upto(index as int),
            decreases self.keys@.len() - index,
        {
            proof {
                crate::model::lemma_index_round_trip(self.layout, index as int);
            }
            match self.keys[index] {
                Some(key) => {
                    let x: usize = index % self.layout.tiles_per_row as usize;
                    let y: usize = index / self.layout.tiles_per_row as usize;
                    let coord = TileCoord { tile_x: x as u32, tile_y: y as u32 };
                    tiles.push(PlacedTile { coord, key });
                },
                None => {},
            }
            index += 1;
        }
        tiles
    }
}

/// The cached rendering of a group.
pub struct GroupTargetCacheEntry {
    pub image: GroupImage,
    pub draw_instances: Vec<TileDrawInstance>,
    pub blend: BlendMode,
}

/// Every allocated tile has an address and a position that fits.
pub open spec fn group_resolves(
    tiles: Seq<PlacedTile>,
    addresses: Map<TileKey, TileAddress>,
) -> bool {
    forall|i: int|
        0 <= i < tiles.len() ==> crate::renderer::draw_builders::drawable(
            (#[trigger] tiles[i]).coord,
        ) && addresses.dom().contains(tiles[i].key)
}

/// The instances that draw the allocated tiles of a group.
pub open spec fn group_instances(
    blend: BlendMode,
    tiles: Seq<PlacedTile>,
    addresses: Map<TileKey, TileAddress>,
) -> Seq<TileDrawInstance> {
    tiles.map_values(
        |tile: PlacedTile|
            crate::renderer::draw_builders::instance_at(blend, tile.coord, addresses[tile.key]),
    )
}

/// The instances that draw a group's image. The addresses are those of its
/// tiles in the group atlas.
pub fn build_group_tile_draw_instances(
    image: &GroupImage,
    blend: BlendMode,
    addresses: &KeyMap<TileKey, TileAddress>,
) -> (instances: Vec<TileDrawInstance>)
    requires
        image@.inv(),
        group_resolves(image@.placed(), addresses@),
    ensures
        instances@ == group_instances(blend, image@.placed(), addresses@),
{
    let tiles = image.iter_tiles();
    let mut instances: Vec<TileDrawInstance> = Vec::new();
    let mut index: usize = 0;
    while index < tiles.len()
        invariant
            index <= tiles@.len(),
            group_resolves(tiles@, addresses@),
            instances@.len() == index,
            forall|i: int|
                0 <= i < index ==> #[trigger] instances@[i]
                    == crate::renderer::draw_builders::instance_at(
                    blend,
                    tiles@[i].coord,
                    addresses@[tiles@[i].key],
                ),
        decreases tiles@.len() - index,
    {
        let tile = tiles[index];
        let address = *addresses.get(tile.key).unwrap();
        instances.push(
            TileDrawInstance {
                blend_mode: blend,
                tile: TileInstanceGpu {
                    document_x: tile.coord.tile_x * TILE_IMAGE,
                    document_y: tile.coord.tile_y * TILE_IMAGE,
                    atlas_layer: address.atlas_layer,
                    tile_index: address.tile_index as u32,
                },
            },
        );
        index += 1;
    }
    assert(instances@ =~= group_instances(blend, tiles@, addresses@));
    instances
}

/// Gives a cache entry the extent of the document's groups. An entry of
/// another extent is replaced by an empty one, and handed back so that its
/// tiles can be released.
pub fn resize_group_cache_entry_if_needed(
    entry: GroupTargetCacheEntry,
    cache_extent: CopyExtent,
) -> (result: (GroupTargetCacheEntry, Option<GroupTargetCacheEntry>))
    requires
        entry.image@.inv(),
        ImageLayout::for_size(cache_extent.width, cache_extent.height).tile_count() <= u32::MAX,
    ensures
        result.0.image@.inv(),
        if entry.image@.layout.size == (TilePos { x: cache_extent.width, y: cache_extent.height }) {
            result.0 == entry && result.1 is None
        } else {
            &&& result.1 == Some(entry)
            &&& result.0.image@ == GroupImageModel::blank(cache_extent.width, cache_extent.height)
            &&& result.0.draw_instances@ == Seq::<TileDrawInstance>::empty()
            &&& result.0.blend == BlendMode::Normal
        },
{
    if entry.image.size_x() == cache_extent.width && entry.image.size_y() == cache_extent.height {
        return (entry, None);
    }
    (create_group_target_cache_entry(cache_extent), Some(entry))
}

/// An empty cache entry of an extent.
pub fn create_group_target_cache_entry(cache_extent: CopyExtent) -> (entry: GroupTargetCacheEntry)
    requires
        ImageLayout::for_size(cache_extent.width, cache_extent.height).tile_count() <= u32::MAX,
    ensures
        entry.image@ == GroupImageModel::blank(cache_extent.width, cache_extent.height),
        entry.image@.inv(),
        entry.draw_instances@ == Seq::<TileDrawInstance>::empty(),
        entry.blend == BlendMode::Normal,
{
    GroupTargetCacheEntry {
        image: GroupImage::new(cache_extent.width, cache_extent.height),
        draw_instances: Vec::new(),
        blend: BlendMode::Normal,
    }
}

/// The tiles that are copied from the composed texture into a group's cache.
#[verifier::ext_equal]
pub struct CopyModel {
    /// The tiles, all of which the image has.
    pub tiles: Set<TileCoord>,
    /// The instances have to be built anew afterwards.
    pub rebuild: bool,
}

/// The tiles to copy into a group's cache: all of them if nothing is drawn from
/// the cache yet or if it is not known which are dirty, and else the dirty ones
/// that the image has.
pub open spec fn copied(
    image: GroupImageModel,
    has_instances: bool,
    resized: bool,
    dirty: Option<Set<TileCoord>>,
) -> CopyModel {
    match dirty {
        Some(tiles) => if has_instances {
            CopyModel {
                tiles: tiles.intersect(Set::new(|c: TileCoord| image.has(c))),
                rebuild: resized,
            }
        } else {
            CopyModel { tiles: Set::new(|c: TileCoord| image.has(c)), rebuild: true }
        },
        None => CopyModel { tiles: Set::new(|c: TileCoord| image.has(c)), rebuild: true },
    }
}

/// The tiles to copy, and whether the instances have to be built anew.
pub struct GroupCopyPlan {
    pub tiles: KeySet<TileCoord>,
    pub rebuild_draw_instances: bool,
}

/// Every position of an image.
fn all_coords(image: &GroupImage) -> (tiles: KeySet<TileCoord>)
    requires
        image@.inv(),
    ensures
        forall|c: TileCoord| #[trigger] tiles@.contains(c) <==> image@.has(c),
{
    let row: u32 = image.tiles_per_row();
    let column: u32 = image.tiles_per_column();
    let mut tiles: Vec<TileCoord> = Vec::new();
    let mut y: u32 = 0;
    while y < column
        invariant
            y <= column,
            row == image@.layout.tiles_per_row,
            column == image@.layout.tiles_per_column,
            tiles@.no_duplicates(),
            forall|c: TileCoord| #[trigger]
                tiles@.contains(c) <==> c.tile_y < y && c.tile_x < row,
        decreases column - y,
    {
        let mut x: u32 = 0;
        while x < row
            invariant
                x <= row,
                y < column,
                row == image@.layout.tiles_per_row,
                column == image@.layout.tiles_per_column,
                tiles@.no_duplicates(),
                forall|c: TileCoord| #[trigger]
                    tiles@.contains(c) <==> (c.tile_y < y && c.tile_x < row) || (c.tile_y == y
                        && c.tile_x < x),
            decreases row - x,
        {
            let coord = TileCoord { tile_x: x, tile_y: y };
            let ghost before = tiles@;
            tiles.push(coord);
            proof {
                assert(!before.contains(coord));
                assert forall|c: TileCoord| #[trigger]
                    tiles@.contains(c) <==> before.contains(c) || c == coord by {
                    if before.contains(c) {
                        let i = before.index_of(c);
                        assert(tiles@[i] == c);
                    }
                    if tiles@.contains(c) && c != coord {
                        let i = tiles@.index_of(c);
                        assert(before[i] == c);
                    }
                    assert(tiles@[before.len() as int] == coord);
                }
            }
            x += 1;
        }
        y += 1;
    }
    KeySet::from_distinct(tiles)
}

/// Plans the copy from a composed texture into a group's cache.
pub fn plan_group_cache_update(
    entry: &GroupTargetCacheEntry,
    resized: bool,
    dirty_tiles: Option<&KeySet<TileCoord>>,
) -> (plan: GroupCopyPlan)
    requires
        entry.image@.inv(),
    ensures
        (CopyModel { tiles: plan.tiles@, rebuild: plan.rebuild_draw_instances }) == copied(
            entry.image@,
            entry.draw_instances@.len() > 0,
            resized,
            crate::renderer::planning::selected(dirty_tiles),
        ),
{
    let every = all_coords(&entry.image);
    proof {
        assert(every@ =~= Set::new(|c: TileCoord| entry.image@.has(c)));
    }
    match dirty_tiles {
        Some(tiles) => if entry.draw_instances.len() > 0 {
            GroupCopyPlan { tiles: tiles.intersection(&every), rebuild_draw_instances: resized }
        } else {
            GroupCopyPlan { tiles: every, rebuild_draw_instances: true }
        },
        None => GroupCopyPlan { tiles: every, rebuild_draw_instances: true },
    }
}

/// The key under which a tile of a group's cache is stored. A tile that has
/// none yet gets `fresh`, which is then used up.
pub fn group_cache_tile_key_for_coord(
    image: &mut GroupImage,
    tile_coord: TileCoord,
    fresh: TileKey,
) -> (result: (TileKey, bool))
    requires
        old(image)@.inv(),
        old(image)@.has(tile_coord),
    ensures
        final(image)@.inv(),
        match old(image)@.key_at(tile_coord) {
            Some(existing) => result == (existing, false) && final(image)@ == old(image)@,
            None => result == (fresh, true) && final(image)@ == old(image)@.with_key(
                tile_coord,
                fresh,
            ),
        },
{
    match image.get_tile(tile_coord) {
        Some(existing) => (existing, false),
        None => {
            image.set_tile(tile_coord, fresh);
            (fresh, true)
        },
    }
}

} // verus!
