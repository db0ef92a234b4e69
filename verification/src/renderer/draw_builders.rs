//! Draw instances: where each tile of a layer or group is drawn from and to.
use vstd::prelude::*;

use crate::collections::{KeyMap, KeySet};
use crate::render_protocol::BlendMode;
use crate::renderer::dirty::{DirtyTileMask, TileCoord};
use crate::renderer::resolver::{ImageSource, PlacedTile, RenderDataResolver};
use crate::tiles::{TileAddress, TILE_IMAGE};

verus! {

/// A tile as the device draws it: its corner in the document, and its slot.
#[derive(Debug, Clone, Copy, PartialEq, Eq, Structural)]
pub struct TileInstanceGpu {
    pub document_x: u32,
    pub document_y: u32,
    pub atlas_layer: u32,
    pub tile_index: u32,
}

/// A tile to draw, and how it is blended.
#[derive(Debug, Clone, Copy, PartialEq, Eq, Structural)]
pub struct TileDrawInstance {
    pub blend_mode: BlendMode,
    pub tile: TileInstanceGpu,
}

/// The position of the tile that an instance draws.
pub open spec fn coord_of(instance: TileDrawInstance) -> TileCoord {
    TileCoord {
        tile_x: (instance.tile.document_x / TILE_IMAGE) as u32,
        tile_y: (instance.tile.document_y / TILE_IMAGE) as u32,
    }
}

/// The position of the tile that an instance draws.
pub fn tile_coord_from_draw_instance(instance: &TileDrawInstance) -> (coord: TileCoord)
    ensures
        coord == coord_of(*instance),
{
    TileCoord {
        tile_x: instance.tile.document_x / TILE_IMAGE,
        tile_y: instance.tile.document_y / TILE_IMAGE,
    }
}

/// The pixel position of the tile fits.
pub open spec fn drawable(coord: TileCoord) -> bool {
    coord.tile_x * TILE_IMAGE <= u32::MAX && coord.tile_y * TILE_IMAGE <= u32::MAX
}

/// The instance that draws the tile at `coord` from the slot at `address`.
pub open spec fn instance_at(
    blend: BlendMode,
    coord: TileCoord,
    address: TileAddress,
) -> TileDrawInstance {
    TileDrawInstance {
        blend_mode: blend,
        tile: TileInstanceGpu {
            document_x: (coord.tile_x * TILE_IMAGE) as u32,
            document_y: (coord.tile_y * TILE_IMAGE) as u32,
            atlas_layer: address.atlas_layer,
            tile_index: address.tile_index as u32,
        },
    }
}

/// An instance draws the tile that it was made for.
pub proof fn lemma_instance_draws_its_tile(
    blend: BlendMode,
    coord: TileCoord,
    address: TileAddress,
)
    requires
        drawable(coord),
    ensures
        coord_of(instance_at(blend, coord, address)) == coord,
{
}

fn build_instance(blend: BlendMode, coord: TileCoord, address: TileAddress) -> (instance:
    TileDrawInstance)
    requires
        drawable(coord),
    ensures
        instance == instance_at(blend, coord, address),
{
    TileDrawInstance {
        blend_mode: blend,
        tile: TileInstanceGpu {
            document_x: coord.tile_x * TILE_IMAGE,
            document_y: coord.tile_y * TILE_IMAGE,
            atlas_layer: address.atlas_layer,
            tile_index: address.tile_index as u32,
        },
    }
}

/// Every tile of the list has an address and a position that fits.
pub open spec fn all_resolve<R: RenderDataResolver>(
    resolver: &R,
    image_source: ImageSource,
    tiles: Seq<PlacedTile>,
) -> bool {
    forall|i: int|
        0 <= i < tiles.len() ==> drawable((#[trigger] tiles[i]).coord) && resolver.address_of(
            image_source,
            tiles[i].key,
        ) is Some
}

/// The instances that draw a list of tiles.
pub open spec fn instances_of<R: RenderDataResolver>(
    blend: BlendMode,
    resolver: &R,
    image_source: ImageSource,
    tiles: Seq<PlacedTile>,
) -> Seq<TileDrawInstance> {
    tiles.map_values(
        |tile: PlacedTile|
            instance_at(blend, tile.coord, resolver.address_of(image_source, tile.key)->0),
    )
}

fn build_instances<R: RenderDataResolver>(
    blend: BlendMode,
    image_source: ImageSource,
    render_data_resolver: &R,
    tiles: &Vec<PlacedTile>,
) -> (instances: Vec<TileDrawInstance>)
    requires
        all_resolve(render_data_resolver, image_source, tiles@),
    ensures
        instances@ == instances_of(blend, render_data_resolver, image_source, tiles@),
{
    let mut instances: Vec<TileDrawInstance> = Vec::new();
    let mut index: usize = 0;
    while index < tiles.len()
        invariant
            index <= tiles@.len(),
            all_resolve(render_data_resolver, image_source, tiles@),
            instances@.len() == index,
            forall|i: int|
                0 <= i < index ==> #[trigger] instances@[i] == instance_at(
                    blend,
                    tiles@[i].coord,
                    render_data_resolver.address_of(image_source, tiles@[i].key)->0,
                ),
        decreases tiles@.len() - index,
    {
        let tile = tiles[index];
        let address = render_data_resolver.resolve_image_source_tile_address(
            image_source,
            tile.key,
        );
        instances.push(build_instance(blend, tile.coord, address.unwrap()));
        index += 1;
    }
    assert(instances@ =~= instances_of(blend, render_data_resolver, image_source, tiles@));
    instances
}

/// The instances that draw all tiles of an image source.
pub fn build_leaf_tile_draw_instances<R: RenderDataResolver>(
    blend: BlendMode,
    image_source: ImageSource,
    render_data_resolver: &R,
) -> (instances: Vec<TileDrawInstance>)
    requires
        all_resolve(
            render_data_resolver,
            image_source,
            render_data_resolver.tiles_of(image_source),
        ),
    ensures
        instances@ == instances_of(
            blend,
            render_data_resolver,
            image_source,
            render_data_resolver.tiles_of(image_source),
        ),
{
    let tiles = render_data_resolver.image_source_tiles(image_source);
    build_instances(blend, image_source, render_data_resolver, &tiles)
}

/// The instances that draw the tiles of an image source among some positions.
pub fn build_leaf_tile_draw_instances_for_tiles<R: RenderDataResolver>(
    blend: BlendMode,
    image_source: ImageSource,
    render_data_resolver: &R,
    tiles: &KeySet<TileCoord>,
) -> (instances: Vec<TileDrawInstance>)
    requires
        all_resolve(
            render_data_resolver,
            image_source,
            render_data_resolver.tiles_among(image_source, tiles@),
        ),
    ensures
        instances@ == (if tiles@ == Set::<TileCoord>::empty() {
            Seq::empty()
        } else {
            instances_of(
                blend,
                render_data_resolver,
                image_source,
                render_data_resolver.tiles_among(image_source, tiles@),
            )
        }),
{
    if tiles.is_empty() {
        return Vec::new();
    }
    let placed = render_data_resolver.image_source_tiles_for_coords(image_source, tiles);
    build_instances(blend, image_source, render_data_resolver, &placed)
}

/// The instances that a layer was last drawn with.
pub struct CachedLeafDraw {
    pub blend: BlendMode,
    pub image_source: ImageSource,
    pub draw_instances: Vec<TileDrawInstance>,
    pub tile_instance_index: KeyMap<TileCoord, usize>,
}

/// The index takes the position of each drawn tile to the last instance that
/// draws it, and lists no other position.
pub open spec fn index_fits(
    instances: Seq<TileDrawInstance>,
    index: Map<TileCoord, usize>,
) -> bool {
    &&& forall|coord: TileCoord| #[trigger]
        index.dom().contains(coord) ==> index[coord] < instances.len() && coord_of(
            instances[index[coord] as int],
        ) == coord
    &&& forall|i: int|
        0 <= i < instances.len() ==> index.dom().contains(coord_of(#[trigger] instances[i])) && i
            <= index[coord_of(instances[i])]
}

/// Of every cached layer the index fits the instances.
pub open spec fn all_indexed(leaves: Map<u64, CachedLeafDraw>) -> bool {
    forall|layer_id: u64| #[trigger]
        leaves.dom().contains(layer_id) ==> leaves[layer_id].inv()
}

/// The instances that draw a tile outside of `tiles`, in order.
pub open spec fn outside(
    instances: Seq<TileDrawInstance>,
    tiles: Set<TileCoord>,
) -> Seq<TileDrawInstance>
    decreases instances.len(),
{
    if instances.len() == 0 {
        Seq::empty()
    } else {
        let earlier = outside(instances.drop_last(), tiles);
        if tiles.contains(coord_of(instances.last())) {
            earlier
        } else {
            earlier.push(instances.last())
        }
    }
}

impl CachedLeafDraw {
    /// The index fits the instances.
    pub open spec fn inv(&self) -> bool {
        index_fits(self.draw_instances@, self.tile_instance_index@)
    }

    /// Nothing drawn yet.
    pub fn new(blend: BlendMode, image_source: ImageSource) -> (cached: Self)
        ensures
            cached.inv(),
            cached.blend == blend,
            cached.image_source == image_source,
            cached.draw_instances@ == Seq::<TileDrawInstance>::empty(),
    {
        CachedLeafDraw {
            blend,
            image_source,
            draw_instances: Vec::new(),
            tile_instance_index: KeyMap::new(),
        }
    }

    /// Makes the index fit the instances.
    pub fn rebuild_tile_index(&mut self)
        ensures
            final(self).inv(),
            final(self).blend == old(self).blend,
            final(self).image_source == old(self).image_source,
            final(self).draw_instances@ == old(self).draw_instances@,
    {
        let mut index: KeyMap<TileCoord, usize> = KeyMap::new();
        let mut position: usize = 0;
        while position < self.draw_instances.len()
            invariant
                *self == *old(self),
                position <= self.draw_instances@.len(),
                index_fits(self.draw_instances@.take(position as int), index@),
            decreases self.draw_instances@.len() - position,
        {
            let coord = tile_coord_from_draw_instance(&self.draw_instances[position]);
            let ghost before = index@;
            index.insert(coord, position);
            proof {
                let shorter = self.draw_instances@.take(position as int);
                let longer = self.draw_instances@.take(position + 1);
                assert forall|c: TileCoord| #[trigger] index@.dom().contains(c) implies index@[c]
                    < longer.len() && coord_of(longer[index@[c] as int]) == c by {
                    if c != coord {
                        assert(before.dom().contains(c));
                        assert(shorter[before[c] as int] == longer[before[c] as int]);
                    }
                }
                assert forall|i: int| 0 <= i < longer.len() implies index@.dom().contains(
                    coord_of(#[trigger] longer[i]),
                ) && i <= index@[coord_of(longer[i])] by {
                    if i < position {
                        assert(shorter[i] == longer[i]);
                    }
                }
            }
            position += 1;
        }
        proof {
            assert(self.draw_instances@.take(position as int) =~= self.draw_instances@);
        }
        self.tile_instance_index = index;
    }

    /// Drops the instances of some tiles.
    pub fn replace_partial_tiles(&mut self, tiles: &KeySet<TileCoord>)
        ensures
            final(self).inv(),
            final(self).blend == old(self).blend,
            final(self).image_source == old(self).image_source,
            final(self).draw_instances@ == outside(old(self).draw_instances@, tiles@),
    {
        let mut kept: Vec<TileDrawInstance> = Vec::new();
        let mut position: usize = 0;
        while position < self.draw_instances.len()
            invariant
                *self == *old(self),
                position <= self.draw_instances@.len(),
                kept@ == outside(self.draw_instances@.take(position as int), tiles@),
            decreases self.draw_instances@.len() - position,
        {
            let instance = self.draw_instances[position];
            proof {
                assert(self.draw_instances@.take(position + 1).drop_last()
                    =~= self.draw_instances@.take(position as int));
            }
            if !tiles.contains(tile_coord_from_draw_instance(&instance)) {
                kept.push(instance);
            }
            position += 1;
        }
        proof {
            assert(self.draw_instances@.take(position as int) =~= self.draw_instances@);
        }
        self.draw_instances = kept;
        self.rebuild_tile_index();
    }

    /// Adds instances after those that are there.
    pub fn append_instances(&mut self, instances: Vec<TileDrawInstance>)
        ensures
            final(self).inv(),
            final(self).blend == old(self).blend,
            final(self).image_source == old(self).image_source,
            final(self).draw_instances@ == old(self).draw_instances@ + instances@,
    {
        let mut more: Vec<TileDrawInstance> = instances;
        self.draw_instances.append(&mut more);
        self.rebuild_tile_index();
    }

    /// Puts other instances in place of those that are there.
    pub fn replace_all_instances(
        &mut self,
        blend: BlendMode,
        image_source: ImageSource,
        instances: Vec<TileDrawInstance>,
    )
        ensures
            final(self).inv(),
            final(self).blend == blend,
            final(self).image_source == image_source,
            final(self).draw_instances@ == instances@,
    {
        self.blend = blend;
        self.image_source = image_source;
        self.draw_instances = instances;
        self.rebuild_tile_index();
    }
}

/// The cache can be drawn from as it is: it was made for the same blend mode
/// and image source, and holds something.
pub open spec fn cache_hits(
    cached: CachedLeafDraw,
    blend: BlendMode,
    image_source: ImageSource,
) -> bool {
    cached.blend == blend && cached.image_source == image_source && cached.draw_instances@.len() > 0
}

/// Tells whether the instances of a layer have to be built anew: it is dirty,
/// or its cache cannot be drawn from.
pub fn leaf_should_rebuild(
    dirty_tiles: Option<&DirtyTileMask>,
    cached_leaf: Option<&CachedLeafDraw>,
    blend: BlendMode,
    image_source: ImageSource,
) -> (rebuild: bool)
    ensures
        rebuild == (dirty_tiles is Some || cached_leaf is None || !cache_hits(
            *cached_leaf->0,
            blend,
            image_source,
        )),
{
    if dirty_tiles.is_some() {
        return true;
    }
    match cached_leaf {
        None => true,
        Some(cached) => cached.blend != blend || cached.image_source != image_source
            || cached.draw_instances.len() == 0,
    }
}

} // verus!
