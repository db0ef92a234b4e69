//! The tiles of the group atlas: which are in use, and which can be used.
use std::collections::VecDeque;
use vstd::prelude::*;

use crate::collections::KeyMap;
use crate::renderer::group_cache::{GroupImage, GroupTargetCacheEntry};
use crate::renderer::resolver::PlacedTile;
use crate::tiles::{TileAddress, TileKey};

verus! {

/// A tile of the group atlas that is not in use.
#[derive(Debug, Clone, Copy, PartialEq, Eq, Structural)]
pub struct FreshTile {
    pub key: TileKey,
    pub address: TileAddress,
}

/// The tiles of the group atlas: where those in use are, and which can be used.
pub struct GroupTiles {
    pub addresses: KeyMap<TileKey, TileAddress>,
    pub fresh: VecDeque<FreshTile>,
}

/// What the tiles of the group atlas are.
#[verifier::ext_equal]
pub struct GroupTilesModel {
    pub addresses: Map<TileKey, TileAddress>,
    pub fresh: Seq<FreshTile>,
}

impl View for GroupTiles {
    type V = GroupTilesModel;

    open spec fn view(&self) -> GroupTilesModel {
        GroupTilesModel { addresses: self.addresses@, fresh: self.fresh@ }
    }
}

impl GroupTilesModel {
    /// No tile is free twice, or both free and in use.
    pub open spec fn inv(&self) -> bool {
        &&& forall|i: int, j: int|
            0 <= i < j < self.fresh.len() ==> (#[trigger] self.fresh[i]).key != (
            #[trigger] self.fresh[j]).key
        &&& forall|i: int|
            0 <= i < self.fresh.len() ==> !self.addresses.dom().contains(
                (#[trigger] self.fresh[i]).key,
            )
    }

    /// The tile belongs to the atlas, in use or not.
    pub open spec fn holds(&self, tile: FreshTile) -> bool {
        ||| self.fresh.contains(tile)
        ||| self.addresses.dom().contains(tile.key) && self.addresses[tile.key] == tile.address
    }

    /// The tile with this key is given back. It can be used again after those
    /// that could be used before.
    pub open spec fn released(&self, key: TileKey) -> GroupTilesModel {
        if self.addresses.dom().contains(key) {
            GroupTilesModel {
                addresses: self.addresses.remove(key),
                fresh: self.fresh.push(FreshTile { key, address: self.addresses[key] }),
            }
        } else {
            *self
        }
    }

    /// Tiles are given back one after the other.
    pub open spec fn all_released(&self, tiles: Seq<PlacedTile>) -> GroupTilesModel
        decreases tiles.len(),
    {
        if tiles.len() == 0 {
            *self
        } else {
            self.all_released(tiles.drop_last()).released(tiles.last().key)
        }
    }
}

/// Gives the tiles of an image back.
pub(crate) fn release_tiles(
    image: &GroupImage,
    addresses: &mut KeyMap<TileKey, TileAddress>,
    fresh: &mut VecDeque<FreshTile>,
)
    requires
        image@.inv(),
    ensures
        (GroupTilesModel { addresses: final(addresses)@, fresh: final(fresh)@ }) == (
        GroupTilesModel { addresses: old(addresses)@, fresh: old(fresh)@ }).all_released(
            image@.placed(),
        ),
{
    let ghost start = GroupTilesModel { addresses: addresses@, fresh: fresh@ };
    let tiles = image.iter_tiles();
    let mut index: usize = 0;
    assert(tiles@.take(0) =~= Seq::<PlacedTile>::empty());
    while index < tiles.len()
        invariant
            index <= tiles@.len(),
            (GroupTilesModel { addresses: addresses@, fresh: fresh@ }) == start.all_released(
                tiles@.take(index as int),
            ),
        decreases tiles@.len() - index,
    {
        let key = tiles[index].key;
        let ghost before = GroupTilesModel { addresses: addresses@, fresh: fresh@ };
        if let Some(address) = addresses.remove(key) {
            fresh.push_back(FreshTile { key, address });
        }
        proof {
            assert((GroupTilesModel { addresses: addresses@, fresh: fresh@ }) =~= before.released(
                key,
            ));
            assert(tiles@.take(index + 1).drop_last() =~= tiles@.take(index as int));
            assert(tiles@.take(index + 1).last() == tiles@[index as int]);
        }
        index += 1;
    }
    assert(tiles@.take(index as int) =~= tiles@);
}

impl GroupTiles {
    /// Gives the tiles of a cached group back to the group atlas.
    pub fn release_group_cache_entry(&mut self, entry: &GroupTargetCacheEntry)
        requires
            entry.image@.inv(),
        ensures
            final(self)@ == old(self)@.all_released(entry.image@.placed()),
    {
        release_tiles(&entry.image, &mut self.addresses, &mut self.fresh);
    }
}

/// Giving tiles back leaves no tile free twice, or both free and in use.
pub proof fn lemma_release_keeps_tiles_apart(atlas: GroupTilesModel, tiles: Seq<PlacedTile>)
    requires
        atlas.inv(),
    ensures
        atlas.all_released(tiles).inv(),
    decreases tiles.len(),
{
    if tiles.len() > 0 {
        lemma_release_keeps_tiles_apart(atlas, tiles.drop_last());
    }
}

/// Tiles that are not given back stay in use where they are.
pub proof fn lemma_release_leaves_others(
    atlas: GroupTilesModel,
    tiles: Seq<PlacedTile>,
    key: TileKey,
)
    requires
        forall|i: int| 0 <= i < tiles.len() ==> (#[trigger] tiles[i]).key != key,
    ensures
        atlas.all_released(tiles).addresses.dom().contains(key)
            == atlas.addresses.dom().contains(key),
        atlas.all_released(tiles).addresses[key] == atlas.addresses[key],
    decreases tiles.len(),
{
    if tiles.len() > 0 {
        let shorter = tiles.drop_last();
        assert forall|i: int| 0 <= i < shorter.len() implies (#[trigger] shorter[i]).key != key by {
            assert(shorter[i] == tiles[i]);
        }
        lemma_release_leaves_others(atlas, shorter, key);
    }
}

/// Giving tiles back neither loses a tile nor makes one up: what belongs to the
/// atlas afterwards belonged to it before.
pub proof fn lemma_release_keeps_every_tile(
    atlas: GroupTilesModel,
    tiles: Seq<PlacedTile>,
    tile: FreshTile,
)
    ensures
        atlas.all_released(tiles).holds(tile) <==> atlas.holds(tile),
    decreases tiles.len(),
{
    if tiles.len() > 0 {
        let earlier = atlas.all_released(tiles.drop_last());
        let key = tiles.last().key;
        lemma_release_keeps_every_tile(atlas, tiles.drop_last(), tile);
        if earlier.addresses.dom().contains(key) {
            let back = FreshTile { key, address: earlier.addresses[key] };
            let fresh = earlier.fresh.push(back);
            if earlier.fresh.contains(tile) {
                let place = choose|i: int|
                    0 <= i < earlier.fresh.len() && earlier.fresh[i] == tile;
                assert(fresh[place] == tile);
            }
            assert(fresh[earlier.fresh.len() as int] == back);
            if fresh.contains(tile) {
                let place = choose|i: int| 0 <= i < fresh.len() && fresh[i] == tile;
                assert(place < earlier.fresh.len() ==> earlier.fresh[place] == tile);
            }
        }
    }
}

/// A tile that has been given back can be used again, and is no longer in use.
pub proof fn lemma_released_tile_can_be_used_again(
    atlas: GroupTilesModel,
    tiles: Seq<PlacedTile>,
    index: int,
)
    requires
        0 <= index < tiles.len(),
    ensures
        !atlas.all_released(tiles).addresses.dom().contains(tiles[index].key),
        atlas.addresses.dom().contains(tiles[index].key) ==> atlas.all_released(
            tiles,
        ).fresh.contains(
            FreshTile { key: tiles[index].key, address: atlas.addresses[tiles[index].key] },
        ),
{
    let key = tiles[index].key;
    lemma_released_tile_is_free(atlas, tiles, index);
    if atlas.addresses.dom().contains(key) {
        let tile = FreshTile { key, address: atlas.addresses[key] };
        assert(atlas.holds(tile));
        lemma_release_keeps_every_tile(atlas, tiles, tile);
    }
}

proof fn lemma_released_tile_is_free(atlas: GroupTilesModel, tiles: Seq<PlacedTile>, index: int)
    requires
        0 <= index < tiles.len(),
    ensures
        !atlas.all_released(tiles).addresses.dom().contains(tiles[index].key),
    decreases tiles.len(),
{
    if index < tiles.len() - 1 {
        lemma_released_tile_is_free(atlas, tiles.drop_last(), index);
        assert(tiles.drop_last()[index] == tiles[index]);
    }
}

} // verus!
