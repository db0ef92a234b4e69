//! The tiles and images that changed since the last frame.
use vstd::prelude::*;

use crate::collections::KeySet;
use crate::gpu_runtime::commands::NodeTile;
use crate::images::image_id::NodeId;
use crate::tiles::TileKey;

verus! {

/// The tiles that changed.
#[derive(Debug)]
pub struct TileDirtyTracker {
    dirty: KeySet<TileKey>,
}

impl View for TileDirtyTracker {
    type V = Set<TileKey>;

    closed spec fn view(&self) -> Set<TileKey> {
        self.dirty@
    }
}

impl Default for TileDirtyTracker {
    fn default() -> (tracker: Self)
        ensures
            tracker@ == Set::<TileKey>::empty(),
    {
        TileDirtyTracker { dirty: KeySet::new() }
    }
}

/// The marked tiles after one more is marked: the key that names no tile marks
/// none.
pub open spec fn marked(dirty: Set<TileKey>, tile_key: TileKey) -> Set<TileKey> {
    if tile_key == TileKey::nothing() {
        dirty
    } else {
        dirty.insert(tile_key)
    }
}

/// The marked tiles after these are marked too.
pub open spec fn all_marked(dirty: Set<TileKey>, tile_keys: Seq<TileKey>) -> Set<TileKey>
    decreases tile_keys.len(),
{
    if tile_keys.len() == 0 {
        dirty
    } else {
        marked(all_marked(dirty, tile_keys.drop_last()), tile_keys.last())
    }
}

impl TileDirtyTracker {
    /// Marks a tile, unless the key names none.
    pub fn mark(&mut self, tile_key: TileKey)
        ensures
            final(self)@ == marked(old(self)@, tile_key),
    {
        if tile_key != TileKey::empty() {
            self.dirty.insert(tile_key);
        }
    }

    /// Marks all of these tiles.
    pub fn mark_all(&mut self, tile_keys: &Vec<TileKey>)
        ensures
            final(self)@ == all_marked(old(self)@, tile_keys@),
    {
        let mut index: usize = 0;
        assert(tile_keys@.take(0) =~= Seq::<TileKey>::empty());
        while index < tile_keys.len()
            invariant
                index <= tile_keys@.len(),
                self@ == all_marked(old(self)@, tile_keys@.take(index as int)),
            decreases tile_keys@.len() - index,
        {
            self.mark(tile_keys[index]);
            proof {
                assert(tile_keys@.take(index + 1).drop_last() =~= tile_keys@.take(index as int));
            }
            index += 1;
        }
        assert(tile_keys@.take(index as int) =~= tile_keys@);
    }

    pub fn clear(&mut self)
        ensures
            final(self)@ == Set::<TileKey>::empty(),
    {
        self.dirty.clear();
    }

    /// The marked tiles, each once.
    pub fn iter(&self) -> (tile_keys: Vec<TileKey>)
        ensures
            tile_keys@.no_duplicates(),
            tile_keys@.to_set() == self@,
    {
        self.dirty.to_vec()
    }

    pub fn is_empty(&self) -> (empty: bool)
        ensures
            empty == (self@ == Set::<TileKey>::empty()),
    {
        self.dirty.is_empty()
    }
}

/// The key that names no tile is never marked.
pub proof fn lemma_nothing_stays_unmarked(dirty: Set<TileKey>, tile_keys: Seq<TileKey>)
    requires
        !dirty.contains(TileKey::nothing()),
    ensures
        !all_marked(dirty, tile_keys).contains(TileKey::nothing()),
    decreases tile_keys.len(),
{
    if tile_keys.len() > 0 {
        lemma_nothing_stays_unmarked(dirty, tile_keys.drop_last());
    }
}

/// Exactly the given tiles are marked, besides those that were, and but for the
/// key that names none.
pub proof fn lemma_marks_each_tile(dirty: Set<TileKey>, tile_keys: Seq<TileKey>, tile_key: TileKey)
    ensures
        all_marked(dirty, tile_keys).contains(tile_key) <==> dirty.contains(tile_key) || (
        tile_keys.contains(tile_key) && tile_key != TileKey::nothing()),
    decreases tile_keys.len(),
{
    if tile_keys.len() > 0 {
        lemma_marks_each_tile(dirty, tile_keys.drop_last(), tile_key);
        if tile_keys.contains(tile_key) {
            let index = choose|i: int| 0 <= i < tile_keys.len() && tile_keys[i] == tile_key;
            if index < tile_keys.len() - 1 {
                assert(tile_keys.drop_last()[index] == tile_key);
            }
        }
        if tile_keys.drop_last().contains(tile_key) {
            let index = choose|i: int|
                0 <= i < tile_keys.drop_last().len() && tile_keys.drop_last()[i] == tile_key;
            assert(tile_keys[index] == tile_key);
        }
        assert(tile_keys[tile_keys.len() - 1] == tile_keys.last());
    }
}

/// The tiles that changed, of each node's image.
pub struct ImageDirtyTracker {
    dirty: KeySet<NodeTile>,
}

impl View for ImageDirtyTracker {
    type V = Set<NodeTile>;

    closed spec fn view(&self) -> Set<NodeTile> {
        self.dirty@
    }
}

impl Default for ImageDirtyTracker {
    fn default() -> (tracker: Self)
        ensures
            tracker@ == Set::<NodeTile>::empty(),
    {
        ImageDirtyTracker { dirty: KeySet::new() }
    }
}

impl ImageDirtyTracker {
    /// Marks a tile of a node's image.
    pub fn mark(&mut self, node_id: NodeId, tile_index: usize)
        ensures
            final(self)@ == old(self)@.insert(NodeTile { node_id, tile_index }),
    {
        self.dirty.insert(NodeTile { node_id, tile_index });
    }

    pub fn clear(&mut self)
        ensures
            final(self)@ == Set::<NodeTile>::empty(),
    {
        self.dirty.clear();
    }

    /// The marked tiles, each once.
    pub fn iter(&self) -> (tiles: Vec<NodeTile>)
        ensures
            tiles@.no_duplicates(),
            tiles@.to_set() == self@,
    {
        self.dirty.to_vec()
    }

    pub fn is_empty(&self) -> (empty: bool)
        ensures
            empty == (self@ == Set::<NodeTile>::empty()),
    {
        self.dirty.is_empty()
    }
}

} // verus!
