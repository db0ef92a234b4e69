//! Carrying out a composite plan: which tiles are drawn, in which order, and
//! what is cached.
use std::collections::VecDeque;
use vstd::prelude::*;

use crate::collections::{KeyMap, KeySet};
use crate::model::{ImageLayout, TilePos};
use crate::render_protocol::BlendMode;
use crate::renderer::composite_plan::{CompositeNodePlan, LeafModel, PlanModel};
use crate::renderer::dirty::{DirtyTileMask, TileCoord, TileMaskModel};
use crate::renderer::draw_builders::{
    build_leaf_tile_draw_instances, build_leaf_tile_draw_instances_for_tiles, CachedLeafDraw,
    TileDrawInstance,
};
use crate::renderer::draw_list::resolve_effective_draw_instances;
use crate::renderer::group_cache::{
    build_group_tile_draw_instances, create_group_target_cache_entry,
    group_cache_tile_key_for_coord, plan_group_cache_update, resize_group_cache_entry_if_needed,
    GroupImage, GroupImageModel, GroupTargetCacheEntry,
};
use crate::renderer::group_tiles::{release_tiles, FreshTile, GroupTilesModel};
use crate::renderer::merge_submission::CopyExtent;
use crate::renderer::planning::{GroupRerenderMode, TileSelection};
use crate::renderer::resolver::{ImageSource, PlacedTile, RenderDataResolver};
use crate::renderer::state::CacheState;
use crate::tiles::{SlotOrigin, TileAddress, TileAtlasLayout, TileKey, TILE_IMAGE, TILE_STRIDE};

verus! {

broadcast use crate::collections::group_viewed;

/// The atlas that tiles are drawn from.
#[derive(Debug, Clone, Copy, PartialEq, Eq, Structural)]
pub enum DrawAtlas {
    Layers,
    Groups,
}

/// Whether a node is drawn into the target, or only cached.
#[derive(Debug, Clone, Copy, PartialEq, Eq, Structural)]
pub enum CompositeEmission {
    CacheOnly,
    EmitToTarget,
}

/// A step for the device. What is drawn goes into the texture of the innermost
/// group that is open, or into the frame's target if none is.
pub enum CompositeAction {
    /// Make a cleared texture for a group.
    OpenGroup { group_id: u64 },
    /// Draw tiles.
    Draw { atlas: DrawAtlas, instances: Vec<TileDrawInstance> },
    /// Copy tiles of the group's texture into the group atlas.
    CloseGroup { group_id: u64, copies: Vec<PlacedTile> },
}

/// A step for the device.
#[verifier::ext_equal]
pub enum ActionModel {
    OpenGroup { group_id: u64 },
    Draw { atlas: DrawAtlas, instances: Seq<TileDrawInstance> },
    CloseGroup { group_id: u64, copies: Seq<PlacedTile> },
}

impl View for CompositeAction {
    type V = ActionModel;

    open spec fn view(&self) -> ActionModel {
        match *self {
            CompositeAction::OpenGroup { group_id } => ActionModel::OpenGroup { group_id },
            CompositeAction::Draw { atlas, instances } => ActionModel::Draw {
                atlas,
                instances: instances@,
            },
            CompositeAction::CloseGroup { group_id, copies } => ActionModel::CloseGroup {
                group_id,
                copies: copies@,
            },
        }
    }
}

/// Why a plan cannot be carried out.
#[derive(Debug, Clone, Copy, PartialEq, Eq, Structural)]
pub enum CompositeFault {
    /// A group is to be drawn from a cache that it does not have.
    MissingGroupCache { group_id: u64 },
    /// The group atlas has no tile left.
    NoFreshTile,
}

/// The cached rendering of a group.
#[verifier::ext_equal]
pub struct GroupModel {
    pub image: GroupImageModel,
    pub instances: Seq<TileDrawInstance>,
    pub blend: BlendMode,
}

impl View for GroupTargetCacheEntry {
    type V = GroupModel;

    open spec fn view(&self) -> GroupModel {
        GroupModel {
            image: self.image@,
            instances: self.draw_instances@,
            blend: self.blend,
        }
    }
}

/// The state in which a plan is carried out.
pub struct CompositeRun {
    pub cache: CacheState,
    /// Where the tiles of the cached groups are in the group atlas.
    pub addresses: KeyMap<TileKey, TileAddress>,
    /// Tiles of the group atlas that can be used.
    pub fresh: VecDeque<FreshTile>,
    /// The steps for the device so far.
    pub actions: Vec<CompositeAction>,
}

/// The state in which a plan is carried out.
#[verifier::ext_equal]
pub struct CompositeModel {
    pub leaves: Map<u64, LeafModel>,
    pub groups: Map<u64, GroupModel>,
    pub addresses: Map<TileKey, TileAddress>,
    pub fresh: Seq<FreshTile>,
    pub actions: Seq<ActionModel>,
}

impl View for CompositeRun {
    type V = CompositeModel;

    open spec fn view(&self) -> CompositeModel {
        CompositeModel {
            leaves: crate::collections::viewed(self.cache.leaf_draw_cache@),
            groups: crate::collections::viewed(self.cache.group_target_cache@),
            addresses: self.addresses@,
            fresh: self.fresh@,
            actions: crate::collections::viewed_seq(self.actions@),
        }
    }
}

/// Every tile of the image that has been allocated has an address.
pub open spec fn addressed(image: GroupImageModel, addresses: Map<TileKey, TileAddress>) -> bool {
    forall|i: int|
        0 <= i < image.keys.len() && (#[trigger] image.keys[i]) is Some
            ==> addresses.dom().contains(image.keys[i]->0)
}

impl CompositeModel {
    /// The tiles of the group atlas.
    pub open spec fn tiles(&self) -> GroupTilesModel {
        GroupTilesModel { addresses: self.addresses, fresh: self.fresh }
    }

    /// A group has this tile at a place of its image.
    pub open spec fn uses(&self, group_id: u64, index: int, key: TileKey) -> bool {
        &&& self.groups.dom().contains(group_id)
        &&& 0 <= index < self.groups[group_id].image.keys.len()
        &&& self.groups[group_id].image.keys[index] == Some(key)
    }

    /// The cached groups are well-formed, and their tiles have addresses. No tile
    /// is used at two places, and none is free and in use at once.
    pub open spec fn inv(&self) -> bool {
        &&& forall|id: u64| #[trigger]
            self.groups.dom().contains(id) ==> self.groups[id].image.inv() && addressed(
                self.groups[id].image,
                self.addresses,
            )
        &&& forall|a: u64, i: int, b: u64, j: int, key: TileKey| #[trigger]
            self.uses(a, i, key) && #[trigger] self.uses(b, j, key) ==> a == b && i == j
        &&& self.tiles().inv()
    }
}

/// Every tile that the document lists has an address, and a position that fits.
pub open spec fn resolves<R: RenderDataResolver>(resolver: &R) -> bool {
    &&& forall|source: ImageSource|
        crate::renderer::draw_builders::all_resolve(
            resolver,
            source,
            #[trigger] resolver.tiles_of(source),
        )
    &&& forall|source: ImageSource, coords: Set<TileCoord>|
        crate::renderer::draw_builders::all_resolve(
            resolver,
            source,
            #[trigger] resolver.tiles_among(source, coords),
        )
}

/// The extent of a group's cache can be divided into tiles.
pub open spec fn extent_fits(extent: CopyExtent) -> bool {
    ImageLayout::for_size(extent.width, extent.height).tile_count() <= u32::MAX
}

proof fn lemma_placed_resolves(
    image: GroupImageModel,
    addresses: Map<TileKey, TileAddress>,
    count: int,
)
    requires
        image.inv(),
        addressed(image, addresses),
        0 <= count <= image.keys.len(),
    ensures
        crate::renderer::group_cache::group_resolves(image.placed_upto(count), addresses),
    decreases count,
{
    if count > 0 {
        lemma_placed_resolves(image, addresses, count - 1);
        crate::model::lemma_index_round_trip(image.layout, count - 1);
        let pos = image.layout.pos_of(count - 1);
        lemma_tile_is_drawable(image.layout.size.x, pos.x);
        lemma_tile_is_drawable(image.layout.size.y, pos.y);
    }
}

/// The corner of a tile that is needed to cover a size lies within that size.
proof fn lemma_tile_is_drawable(size: u32, tile: u32)
    requires
        tile < crate::model::parts(size as int, TILE_IMAGE as int) as u32,
    ensures
        tile * TILE_IMAGE <= u32::MAX,
{
    let count = crate::model::parts(size as int, TILE_IMAGE as int);
    let part = TILE_IMAGE as int;
    assert(0 <= count <= size && (count - 1) * part <= size) by (nonlinear_arith)
        requires
            count == (size + part - 1) / part,
            part == 126,
            size >= 0,
    ;
}

/// The rendering of a group with another blend mode.
pub open spec fn with_blend(
    entry: GroupModel,
    blend: BlendMode,
    addresses: Map<TileKey, TileAddress>,
) -> GroupModel {
    if entry.blend == blend {
        entry
    } else {
        GroupModel {
            image: entry.image,
            instances: crate::renderer::group_cache::group_instances(
                blend,
                entry.image.placed(),
                addresses,
            ),
            blend,
        }
    }
}

/// The steps after tiles have been drawn, unless there is nothing to draw.
pub open spec fn drawn(
    actions: Seq<ActionModel>,
    atlas: DrawAtlas,
    instances: Seq<TileDrawInstance>,
) -> Seq<ActionModel> {
    if instances.len() == 0 {
        actions
    } else {
        actions.push(ActionModel::Draw { atlas, instances })
    }
}

/// What a layer is drawn with: what was drawn before, with the dirty tiles
/// replaced, or everything built anew.
pub open spec fn leaf_rebuilt<R: RenderDataResolver>(
    resolver: &R,
    cached: LeafModel,
    blend: BlendMode,
    image_source: ImageSource,
    dirty_tiles: Option<TileMaskModel>,
) -> LeafModel {
    match dirty_tiles {
        Some(TileMaskModel::Partial(tiles)) => if cached.hits(blend, image_source) {
            LeafModel {
                instances: crate::renderer::draw_builders::outside(cached.instances, tiles) + (
                if tiles == Set::<TileCoord>::empty() {
                    Seq::empty()
                } else {
                    crate::renderer::draw_builders::instances_of(
                        blend,
                        resolver,
                        image_source,
                        resolver.tiles_among(image_source, tiles),
                    )
                }),
                ..cached
            }
        } else {
            leaf_built(resolver, blend, image_source)
        },
        _ => leaf_built(resolver, blend, image_source),
    }
}

/// What a layer is drawn with when everything is built anew.
pub open spec fn leaf_built<R: RenderDataResolver>(
    resolver: &R,
    blend: BlendMode,
    image_source: ImageSource,
) -> LeafModel {
    LeafModel {
        blend,
        image_source,
        instances: crate::renderer::draw_builders::instances_of(
            blend,
            resolver,
            image_source,
            resolver.tiles_of(image_source),
        ),
    }
}

/// The state after a leaf has been drawn.
pub open spec fn leaf_rendered<R: RenderDataResolver>(
    resolver: &R,
    layer_id: u64,
    blend: BlendMode,
    image_source: ImageSource,
    should_rebuild: bool,
    dirty_tiles: Option<TileMaskModel>,
    visible_tiles: TileSelection,
    model: CompositeModel,
) -> CompositeModel {
    let cached = if model.leaves.dom().contains(layer_id) {
        model.leaves[layer_id]
    } else {
        LeafModel { blend, image_source, instances: Seq::empty() }
    };
    let leaf = if should_rebuild {
        leaf_rebuilt(resolver, cached, blend, image_source, dirty_tiles)
    } else {
        cached
    };
    CompositeModel {
        leaves: model.leaves.insert(layer_id, leaf),
        actions: drawn(
            model.actions,
            DrawAtlas::Layers,
            crate::renderer::draw_list::effective(leaf.instances, visible_tiles),
        ),
        ..model
    }
}

/// Draws a leaf, after its instances have been brought up to date.
fn render_leaf_node_plan<R: RenderDataResolver>(
    run: &mut CompositeRun,
    render_data_resolver: &R,
    layer_id: u64,
    blend: BlendMode,
    image_source: ImageSource,
    should_rebuild: bool,
    dirty_tiles: &Option<DirtyTileMask>,
    visible_tiles: &Option<KeySet<TileCoord>>,
)
    requires
        resolves(render_data_resolver),
        old(run)@.inv(),
    ensures
        final(run)@.inv(),
        final(run)@ == leaf_rendered(
            render_data_resolver,
            layer_id,
            blend,
            image_source,
            should_rebuild,
            crate::renderer::composite_plan::mask_model(*dirty_tiles),
            crate::renderer::planning::selection(*visible_tiles),
            old(run)@,
        ),
        crate::renderer::draw_builders::all_indexed(old(run).cache.leaf_draw_cache@)
            ==> crate::renderer::draw_builders::all_indexed(final(run).cache.leaf_draw_cache@),
{
    let ghost before = run@;
    let removed = run.cache.leaf_draw_cache.remove(layer_id);
    let mut cached_leaf = match removed {
        Some(cached) => cached,
        None => CachedLeafDraw::new(blend, image_source),
    };
    proof {
        if before.leaves.dom().contains(layer_id) {
            assert(before.leaves[layer_id] == cached_leaf@);
        }
        assert(resolver_facts(render_data_resolver, image_source));
    }
    if should_rebuild {
        let reusable = cached_leaf.blend == blend && cached_leaf.image_source == image_source
            && cached_leaf.draw_instances.len() > 0;
        match dirty_tiles {
            Some(DirtyTileMask::Partial(tiles)) if reusable => {
                cached_leaf.replace_partial_tiles(tiles);
                let partial_instances = build_leaf_tile_draw_instances_for_tiles(
                    blend,
                    image_source,
                    render_data_resolver,
                    tiles,
                );
                cached_leaf.append_instances(partial_instances);
            },
            _ => {
                let full_instances = build_leaf_tile_draw_instances(
                    blend,
                    image_source,
                    render_data_resolver,
                );
                cached_leaf.replace_all_instances(blend, image_source, full_instances);
            },
        }
    }
    let instances = resolve_effective_draw_instances(
        &cached_leaf.draw_instances,
        visible_tiles.as_ref(),
    );
    if instances.len() > 0 {
        run.actions.push(CompositeAction::Draw { atlas: DrawAtlas::Layers, instances });
    }
    let ghost leaf = cached_leaf@;
    run.cache.leaf_draw_cache.insert(layer_id, cached_leaf);
    proof {
        let after = leaf_rendered(
            render_data_resolver,
            layer_id,
            blend,
            image_source,
            should_rebuild,
            crate::renderer::composite_plan::mask_model(*dirty_tiles),
            crate::renderer::planning::selection(*visible_tiles),
            before,
        );
        assert(after.leaves[layer_id] =~= leaf);
        assert(run@.leaves =~= after.leaves);
        assert(run@ =~= after);
        lemma_same_tiles_stay_apart(before, after);
    }
}

/// The tiles that the document lists for a source resolve.
spec fn resolver_facts<R: RenderDataResolver>(resolver: &R, source: ImageSource) -> bool {
    &&& crate::renderer::draw_builders::all_resolve(resolver, source, resolver.tiles_of(source))
    &&& forall|coords: Set<TileCoord>|
        crate::renderer::draw_builders::all_resolve(
            resolver,
            source,
            #[trigger] resolver.tiles_among(source, coords),
        )
}

/// How far the tiles of a group's texture have been given places in the atlas.
#[verifier::ext_equal]
pub struct CopyProgress {
    pub image: GroupImageModel,
    pub fresh: Seq<FreshTile>,
    pub addresses: Map<TileKey, TileAddress>,
    pub copies: Seq<PlacedTile>,
}

impl CopyProgress {
    /// One more tile is copied: to where it was before, or to a fresh tile.
    pub open spec fn with_tile(&self, coord: TileCoord) -> Result<CopyProgress, CompositeFault> {
        match self.image.key_at(coord) {
            Some(key) => Ok(
                CopyProgress { copies: self.copies.push(PlacedTile { coord, key }), ..*self },
            ),
            None => if self.fresh.len() == 0 {
                Err(CompositeFault::NoFreshTile)
            } else {
                let tile = self.fresh[0];
                Ok(
                    CopyProgress {
                        image: self.image.with_key(coord, tile.key),
                        fresh: self.fresh.skip(1),
                        addresses: self.addresses.insert(tile.key, tile.address),
                        copies: self.copies.push(PlacedTile { coord, key: tile.key }),
                    },
                )
            },
        }
    }

    /// The tiles in `tiles` are copied, as far as they are among the first
    /// `count` of the image: row by row.
    pub open spec fn with_tiles(&self, tiles: Set<TileCoord>, count: int) -> Result<
        CopyProgress,
        CompositeFault,
    >
        decreases count,
    {
        if count <= 0 {
            Ok(*self)
        } else {
            match self.with_tiles(tiles, count - 1) {
                Err(fault) => Err(fault),
                Ok(progress) => {
                    let coord = coord_at(self.image, count - 1);
                    if tiles.contains(coord) {
                        progress.with_tile(coord)
                    } else {
                        Ok(progress)
                    }
                },
            }
        }
    }
}

/// The position of the tile with an index.
pub open spec fn coord_at(image: GroupImageModel, index: int) -> TileCoord {
    TileCoord { tile_x: image.layout.pos_of(index).x, tile_y: image.layout.pos_of(index).y }
}

proof fn lemma_copy_fault_stays(
    start: CopyProgress,
    tiles: Set<TileCoord>,
    few: int,
    many: int,
)
    requires
        0 <= few <= many,
        start.with_tiles(tiles, few) is Err,
    ensures
        start.with_tiles(tiles, many) == start.with_tiles(tiles, few),
    decreases many,
{
    if few < many {
        lemma_copy_fault_stays(start, tiles, few, many - 1);
    }
}

/// Gives each tile that is copied a place in the atlas.
fn copy_group_cache_tiles(
    image: &mut GroupImage,
    tiles: &KeySet<TileCoord>,
    fresh: &mut VecDeque<FreshTile>,
    addresses: &mut KeyMap<TileKey, TileAddress>,
) -> (result: Result<Vec<PlacedTile>, CompositeFault>)
    requires
        old(image)@.inv(),
        addressed(old(image)@, old(addresses)@),
    ensures
        match (CopyProgress {
            image: old(image)@,
            fresh: old(fresh)@,
            addresses: old(addresses)@,
            copies: Seq::empty(),
        }).with_tiles(tiles@, old(image)@.keys.len() as int) {
            Ok(progress) => result is Ok && final(image)@ == progress.image && final(fresh)@
                == progress.fresh && final(addresses)@ == progress.addresses && result->Ok_0@
                == progress.copies && final(image)@.inv() && addressed(
                final(image)@,
                final(addresses)@,
            ),
            Err(fault) => result == Err::<Vec<PlacedTile>, _>(fault),
        },
        forall|key: TileKey| #[trigger]
            old(addresses)@.dom().contains(key) ==> final(addresses)@.dom().contains(key),
{
    let ghost start = CopyProgress {
        image: image@,
        fresh: fresh@,
        addresses: addresses@,
        copies: Seq::empty(),
    };
    let count: u32 = image.tiles_per_row() * image.tiles_per_column();
    let mut copies: Vec<PlacedTile> = Vec::new();
    let mut index: u32 = 0;
    assert(copies@ =~= Seq::<PlacedTile>::empty());
    while index < count
        invariant
            index <= count,
            start.image == old(image)@,
            start.fresh == old(fresh)@,
            start.addresses == old(addresses)@,
            start.copies == Seq::<PlacedTile>::empty(),
            start.image.inv(),
            count == start.image.keys.len(),
            image@.inv(),
            image@.layout == start.image.layout,
            addressed(image@, addresses@),
            start.with_tiles(tiles@, index as int) == Ok::<_, CompositeFault>(
                CopyProgress {
                    image: image@,
                    fresh: fresh@,
                    addresses: addresses@,
                    copies: copies@,
                },
            ),
            forall|key: TileKey| #[trigger]
                start.addresses.dom().contains(key) ==> addresses@.dom().contains(key),
        decreases count - index,
    {
        proof {
            crate::model::lemma_index_round_trip(start.image.layout, index as int);
        }
        let row: u32 = image.tiles_per_row();
        let coord = TileCoord { tile_x: index % row, tile_y: index / row };
        assert(coord == coord_at(start.image, index as int));
        if tiles.contains(coord) {
            let ghost before = image@;
            let ghost at = CopyProgress {
                image: image@,
                fresh: fresh@,
                addresses: addresses@,
                copies: copies@,
            };
            match image.get_tile(coord) {
                Some(key) => {
                    copies.push(PlacedTile { coord, key });
                },
                None => {
                    match fresh.pop_front() {
                        Some(tile) => {
                            let (key, _) = group_cache_tile_key_for_coord(image, coord, tile.key);
                            addresses.insert(tile.key, tile.address);
                            copies.push(PlacedTile { coord, key });
                            proof {
                                assert(fresh@ =~= at.fresh.skip(1));
                                crate::model::lemma_index_in_grid(
                                    before.layout,
                                    crate::renderer::group_cache::as_pos(coord),
                                );
                                assert forall|i: int|
                                    0 <= i < image@.keys.len() && (
                                    #[trigger] image@.keys[i]) is Some implies addresses@.dom().contains(
                                image@.keys[i]->0) by {
                                    if i != before.layout.index_of(
                                        crate::renderer::group_cache::as_pos(coord),
                                    ) {
                                        assert(image@.keys[i] == before.keys[i]);
                                    }
                                }
                            }
                        },
                        None => {
                            proof {
                                assert(start.with_tiles(tiles@, index + 1) is Err);
                                lemma_copy_fault_stays(start, tiles@, index + 1, count as int);
                            }
                            return Err(CompositeFault::NoFreshTile);
                        },
                    }
                },
            }
        }
        index += 1;
    }
    Ok(copies)
}

/// A group that has nothing cached yet.
pub open spec fn blank_group(extent: CopyExtent) -> GroupModel {
    GroupModel {
        image: GroupImageModel::blank(extent.width, extent.height),
        instances: Seq::empty(),
        blend: BlendMode::Normal,
    }
}

impl CompositeModel {
    /// The cache of a group, which is blank if there is none yet.
    pub open spec fn existing(&self, group_id: u64, extent: CopyExtent) -> GroupModel {
        if self.groups.dom().contains(group_id) {
            self.groups[group_id]
        } else {
            blank_group(extent)
        }
    }

    /// The cache of a group has an extent.
    pub open spec fn fits(&self, group_id: u64, extent: CopyExtent) -> bool {
        self.existing(group_id, extent).image.layout.size == (TilePos {
            x: extent.width,
            y: extent.height,
        })
    }

    /// The cache of a group in an extent. One of another extent is given up.
    pub open spec fn resized(&self, group_id: u64, extent: CopyExtent) -> GroupModel {
        if self.fits(group_id, extent) {
            self.existing(group_id, extent)
        } else {
            blank_group(extent)
        }
    }

    /// Where the copies into the cache of a group start from. The tiles of a cache
    /// that is given up can be used for the new one.
    pub open spec fn copy_start(&self, group_id: u64, extent: CopyExtent) -> CopyProgress {
        let tiles = if self.fits(group_id, extent) {
            self.tiles()
        } else {
            self.tiles().all_released(self.existing(group_id, extent).image.placed())
        };
        CopyProgress {
            image: self.resized(group_id, extent).image,
            fresh: tiles.fresh,
            addresses: tiles.addresses,
            copies: Seq::empty(),
        }
    }

    /// The state after the tiles in `dirty` have been taken into the cache of a
    /// group, and the copies that this takes. A cache of another extent is
    /// given up first.
    pub open spec fn with_cached(
        &self,
        group_id: u64,
        extent: CopyExtent,
        dirty: TileSelection,
    ) -> Result<(CompositeModel, Seq<PlacedTile>), CompositeFault> {
        let base = self.resized(group_id, extent);
        let plan = crate::renderer::group_cache::copied(
            base.image,
            base.instances.len() > 0,
            !self.fits(group_id, extent),
            dirty,
        );
        match self.copy_start(group_id, extent).with_tiles(
            plan.tiles,
            base.image.keys.len() as int,
        ) {
            Err(fault) => Err(fault),
            Ok(progress) => {
                let entry = GroupModel {
                    image: progress.image,
                    instances: if plan.rebuild {
                        crate::renderer::group_cache::group_instances(
                            base.blend,
                            progress.image.placed(),
                            progress.addresses,
                        )
                    } else {
                        base.instances
                    },
                    blend: base.blend,
                };
                Ok(
                    (
                        CompositeModel {
                            groups: self.groups.insert(group_id, entry),
                            addresses: progress.addresses,
                            fresh: progress.fresh,
                            ..*self
                        },
                        progress.copies,
                    ),
                )
            },
        }
    }

    /// The state after a cached group has been drawn, with the blend mode that
    /// it has now.
    pub open spec fn with_group_drawn(
        &self,
        group_id: u64,
        entry: GroupModel,
        emit_tiles: TileSelection,
        emission: CompositeEmission,
    ) -> CompositeModel {
        CompositeModel {
            groups: self.groups.insert(group_id, entry),
            actions: if emission is EmitToTarget {
                drawn(
                    self.actions,
                    DrawAtlas::Groups,
                    crate::renderer::draw_list::effective(entry.instances, emit_tiles),
                )
            } else {
                self.actions
            },
            ..*self
        }
    }

    /// The state after a step for the device.
    pub open spec fn with_action(&self, action: ActionModel) -> CompositeModel {
        CompositeModel { actions: self.actions.push(action), ..*self }
    }
}

/// The state after a plan has been carried out.
///
/// A group is drawn from its cache, or its children are drawn into a texture of
/// its own, from which the cache is updated.
pub open spec fn rendered<R: RenderDataResolver>(
    resolver: &R,
    extent: CopyExtent,
    plan: PlanModel,
    emission: CompositeEmission,
    model: CompositeModel,
) -> Result<CompositeModel, CompositeFault>
    decreases plan,
{
    match plan {
        PlanModel::Leaf {
            layer_id,
            blend,
            image_source,
            should_rebuild,
            dirty_tiles,
            visible_tiles,
        } => Ok(
            leaf_rendered(
                resolver,
                layer_id,
                blend,
                image_source,
                should_rebuild,
                dirty_tiles,
                visible_tiles,
                model,
            ),
        ),
        PlanModel::Group { group_id, blend, decision, emit_tiles, children } => {
            if decision.mode is UseCache {
                if model.groups.dom().contains(group_id) {
                    let entry = with_blend(model.groups[group_id], blend, model.addresses);
                    Ok(model.with_group_drawn(group_id, entry, emit_tiles, emission))
                } else {
                    Err(CompositeFault::MissingGroupCache { group_id })
                }
            } else if decision.tiles == Some(Set::<TileCoord>::empty()) {
                if model.groups.dom().contains(group_id) {
                    let entry = model.groups[group_id];
                    Ok(model.with_group_drawn(group_id, entry, emit_tiles, emission))
                } else {
                    Err(CompositeFault::MissingGroupCache { group_id })
                }
            } else {
                let opened = model.with_action(ActionModel::OpenGroup { group_id });
                match rendered_all(resolver, extent, children, opened) {
                    Err(fault) => Err(fault),
                    Ok(composed) => match composed.with_cached(group_id, extent, decision.tiles) {
                        Err(fault) => Err(fault),
                        Ok((cached, copies)) => {
                            let closed = cached.with_action(
                                ActionModel::CloseGroup { group_id, copies },
                            );
                            let entry = with_blend(
                                closed.groups[group_id],
                                blend,
                                closed.addresses,
                            );
                            Ok(closed.with_group_drawn(group_id, entry, emit_tiles, emission))
                        },
                    },
                }
            }
        },
    }
}

/// The state after the plans of a group's children have been carried out, in
/// order.
pub open spec fn rendered_all<R: RenderDataResolver>(
    resolver: &R,
    extent: CopyExtent,
    plans: Seq<PlanModel>,
    model: CompositeModel,
) -> Result<CompositeModel, CompositeFault>
    decreases plans,
{
    if plans.len() == 0 {
        Ok(model)
    } else {
        match rendered_all(resolver, extent, plans.drop_last(), model) {
            Err(fault) => Err(fault),
            Ok(earlier) => rendered(
                resolver,
                extent,
                plans.last(),
                CompositeEmission::EmitToTarget,
                earlier,
            ),
        }
    }
}

proof fn lemma_render_fault_stays<R: RenderDataResolver>(
    resolver: &R,
    extent: CopyExtent,
    few: Seq<PlanModel>,
    many: Seq<PlanModel>,
    model: CompositeModel,
)
    requires
        few.len() <= many.len(),
        few == many.take(few.len() as int),
        rendered_all(resolver, extent, few, model) is Err,
    ensures
        rendered_all(resolver, extent, many, model) == rendered_all(resolver, extent, few, model),
    decreases many.len(),
{
    if few.len() == many.len() {
        assert(few =~= many);
    } else {
        assert(many.drop_last().take(few.len() as int) =~= few);
        lemma_render_fault_stays(resolver, extent, few, many.drop_last(), model);
    }
}

/// The tiles of an image are used once each, and by none of the others.
spec fn exclusive(image: GroupImageModel, others: Set<TileKey>) -> bool {
    &&& forall|i: int, j: int|
        0 <= i < image.keys.len() && 0 <= j < image.keys.len() && (#[trigger] image.keys[i]) is Some
            && image.keys[i] == #[trigger] image.keys[j] ==> i == j
    &&& forall|i: int|
        0 <= i < image.keys.len() && (#[trigger] image.keys[i]) is Some ==> !others.contains(
            image.keys[i]->0,
        )
}

/// Copies into the cache of a group take free tiles, so that none is used twice.
proof fn lemma_copies_keep_tiles_apart(
    start: CopyProgress,
    tiles: Set<TileCoord>,
    count: int,
    others: Set<TileKey>,
)
    requires
        start.image.inv(),
        0 <= count <= start.image.keys.len(),
        addressed(start.image, start.addresses),
        (GroupTilesModel { addresses: start.addresses, fresh: start.fresh }).inv(),
        exclusive(start.image, others),
        others.subset_of(start.addresses.dom()),
    ensures
        start.with_tiles(tiles, count) matches Ok(after) ==> {
            &&& after.image.inv()
            &&& after.image.layout == start.image.layout
            &&& addressed(after.image, after.addresses)
            &&& (GroupTilesModel { addresses: after.addresses, fresh: after.fresh }).inv()
            &&& exclusive(after.image, others)
            &&& others.subset_of(after.addresses.dom())
        },
    decreases count,
{
    if count > 0 {
        lemma_copies_keep_tiles_apart(start, tiles, count - 1, others);
        if let Ok(progress) = start.with_tiles(tiles, count - 1) {
            let coord = coord_at(start.image, count - 1);
            crate::model::lemma_index_round_trip(start.image.layout, count - 1);
            if tiles.contains(coord) && progress.image.key_at(coord) is None
                && progress.fresh.len() > 0 {
                let tile = progress.fresh[0];
                let after = progress.with_tile(coord)->Ok_0;
                let held = GroupTilesModel {
                    addresses: progress.addresses,
                    fresh: progress.fresh,
                };
                assert(held.inv());
                assert(!held.addresses.dom().contains(held.fresh[0].key));
                assert(progress.image.layout.index_of(
                    crate::renderer::group_cache::as_pos(coord),
                ) == count - 1);
                assert forall|i: int| 0 <= i < after.image.keys.len() implies (
                #[trigger] after.image.keys[i]) == (if i == count - 1 {
                    Some(tile.key)
                } else {
                    progress.image.keys[i]
                }) by {}
                assert forall|i: int| 0 <= i < after.fresh.len() implies (
                #[trigger] after.fresh[i]) == progress.fresh[i + 1] by {}
                let left = GroupTilesModel { addresses: after.addresses, fresh: after.fresh };
                assert forall|i: int, j: int| 0 <= i < j < left.fresh.len() implies (
                #[trigger] left.fresh[i]).key != (#[trigger] left.fresh[j]).key by {
                    assert(held.fresh[i + 1].key != held.fresh[j + 1].key);
                }
                assert forall|i: int| 0 <= i < left.fresh.len() implies !left.addresses.dom().contains(
                (#[trigger] left.fresh[i]).key) by {
                    assert(held.fresh[0].key != held.fresh[i + 1].key);
                    assert(!held.addresses.dom().contains(held.fresh[i + 1].key));
                }
                assert(exclusive(after.image, others)) by {
                    assert forall|i: int| 0 <= i < after.image.keys.len() && (
                    #[trigger] after.image.keys[i]) is Some && after.image.keys[i]->0
                        == tile.key implies i == count - 1 by {
                        if i != count - 1 {
                            assert(progress.image.keys[i] is Some);
                        }
                    }
                    assert forall|i: int, j: int|
                        0 <= i < after.image.keys.len() && 0 <= j < after.image.keys.len() && (
                        #[trigger] after.image.keys[i]) is Some && after.image.keys[i]
                            == #[trigger] after.image.keys[j] implies i == j by {
                        if i != count - 1 && j != count - 1 {
                            assert(progress.image.keys[i] == progress.image.keys[j]);
                        }
                    }
                    assert forall|i: int|
                        0 <= i < after.image.keys.len() && (
                        #[trigger] after.image.keys[i]) is Some implies !others.contains(
                        after.image.keys[i]->0,
                    ) by {
                        if i != count - 1 {
                            assert(progress.image.keys[i] is Some);
                        }
                    }
                }
                assert(addressed(after.image, after.addresses)) by {
                    assert forall|i: int|
                        0 <= i < after.image.keys.len() && (
                        #[trigger] after.image.keys[i]) is Some implies after.addresses.dom().contains(
                    after.image.keys[i]->0) by {
                        if i != count - 1 {
                            assert(progress.image.keys[i] is Some);
                        }
                    }
                }
            }
        }
    }
}

/// Every tile that is placed is a tile of the image.
pub proof fn lemma_placed_tiles_are_used(image: GroupImageModel, count: int, at: int)
    requires
        0 <= count <= image.keys.len(),
        0 <= at < image.placed_upto(count).len(),
    ensures
        exists|i: int|
            0 <= i < count && #[trigger] image.keys[i] == Some(image.placed_upto(count)[at].key),
    decreases count,
{
    if count > 0 {
        let earlier = image.placed_upto(count - 1);
        if at < earlier.len() {
            lemma_placed_tiles_are_used(image, count - 1, at);
            let i = choose|i: int|
                0 <= i < count - 1 && #[trigger] image.keys[i] == Some(earlier[at].key);
            assert(image.placed_upto(count)[at] == earlier[at]);
            assert(image.keys[i] == Some(image.placed_upto(count)[at].key));
        } else {
            assert(image.keys[count - 1] == Some(image.placed_upto(count)[at].key));
        }
    }
}

/// Giving up the cache of one group, and its tiles with it, leaves the other
/// groups their tiles.
pub proof fn lemma_giving_up_a_group_leaves_the_others(model: CompositeModel, group_id: u64)
    requires
        model.inv(),
        model.groups.dom().contains(group_id),
    ensures
        ({
            let tiles = model.tiles().all_released(model.groups[group_id].image.placed());
            (CompositeModel {
                groups: model.groups.remove(group_id),
                addresses: tiles.addresses,
                fresh: tiles.fresh,
                ..model
            }).inv()
        }),
{
    let image = model.groups[group_id].image;
    let tiles = model.tiles().all_released(image.placed());
    let after = CompositeModel {
        groups: model.groups.remove(group_id),
        addresses: tiles.addresses,
        fresh: tiles.fresh,
        ..model
    };
    crate::renderer::group_tiles::lemma_release_keeps_tiles_apart(model.tiles(), image.placed());
    assert forall|a: u64, i: int, b: u64, j: int, key: TileKey| #[trigger]
        after.uses(a, i, key) && #[trigger] after.uses(b, j, key) implies a == b && i == j by {
        assert(model.uses(a, i, key) && model.uses(b, j, key));
    }
    assert forall|id: u64| #[trigger] after.groups.dom().contains(id) implies
        after.groups[id].image.inv() && addressed(after.groups[id].image, after.addresses) by {
        assert(model.groups.dom().contains(id));
        let other = model.groups[id].image;
        assert forall|i: int| 0 <= i < other.keys.len() && (#[trigger] other.keys[i]) is Some implies
            after.addresses.dom().contains(other.keys[i]->0) by {
            let key = other.keys[i]->0;
            assert(model.uses(id, i, key));
            assert forall|at: int| 0 <= at < image.placed().len() implies (
            #[trigger] image.placed()[at]).key != key by {
                lemma_placed_tiles_are_used(image, image.keys.len() as int, at);
                let place = choose|place: int|
                    0 <= place < image.keys.len() && #[trigger] image.keys[place] == Some(
                        image.placed()[at].key,
                    );
                if image.placed()[at].key == key {
                    assert(model.uses(group_id, place, key));
                }
            }
            crate::renderer::group_tiles::lemma_release_leaves_others(
                model.tiles(),
                image.placed(),
                key,
            );
        }
    }
}

/// The groups but for one, once the cache of that one has been given up if it has
/// another extent.
spec fn without_group(model: CompositeModel, group_id: u64, extent: CopyExtent) -> CompositeModel {
    CompositeModel {
        groups: model.groups.remove(group_id),
        addresses: model.copy_start(group_id, extent).addresses,
        fresh: model.copy_start(group_id, extent).fresh,
        ..model
    }
}

/// The tiles of the groups but for one.
spec fn tiles_of_others(model: CompositeModel, group_id: u64, extent: CopyExtent) -> Set<TileKey> {
    Set::new(
        |key: TileKey|
            exists|a: u64, i: int| #[trigger]
                without_group(model, group_id, extent).uses(a, i, key),
    )
}

/// Copies into the cache of a group start with its tiles apart from all others.
proof fn lemma_copies_start_apart(model: CompositeModel, group_id: u64, extent: CopyExtent)
    requires
        model.inv(),
        extent_fits(extent),
    ensures
        without_group(model, group_id, extent).inv(),
        model.resized(group_id, extent).image.inv(),
        addressed(
            model.resized(group_id, extent).image,
            model.copy_start(group_id, extent).addresses,
        ),
        exclusive(
            model.resized(group_id, extent).image,
            tiles_of_others(model, group_id, extent),
        ),
        tiles_of_others(model, group_id, extent).subset_of(
            model.copy_start(group_id, extent).addresses.dom(),
        ),
{
    let start = model.copy_start(group_id, extent);
    let base = model.resized(group_id, extent);
    let without = without_group(model, group_id, extent);
    lemma_blank_group(extent);
    assert forall|a: u64, i: int, key: TileKey| #[trigger] without.uses(a, i, key) implies
        a != group_id && model.uses(a, i, key) by {}
    if !model.fits(group_id, extent) {
        lemma_giving_up_a_group_leaves_the_others(model, group_id);
    } else {
        assert(without.tiles() == model.tiles());
        assert forall|id: u64| #[trigger] without.groups.dom().contains(id) implies
            without.groups[id].image.inv() && addressed(
            without.groups[id].image,
            without.addresses,
        ) by {
            assert(model.groups.dom().contains(id));
        }
    }
    assert(without.inv());
    let others = tiles_of_others(model, group_id, extent);
    assert forall|key: TileKey| others.contains(key) implies start.addresses.dom().contains(
        key,
    ) by {
        let (a, i) = choose|a: u64, i: int| #[trigger] without.uses(a, i, key);
        assert(without.groups.dom().contains(a));
        assert(without.groups[a].image.keys[i] is Some);
    }
    assert(exclusive(base.image, others)) by {
        assert forall|i: int, j: int|
            0 <= i < base.image.keys.len() && 0 <= j < base.image.keys.len() && (
            #[trigger] base.image.keys[i]) is Some && base.image.keys[i]
                == #[trigger] base.image.keys[j] implies i == j by {
            let key = base.image.keys[i]->0;
            assert(model.uses(group_id, i, key) && model.uses(group_id, j, key));
        }
        assert forall|i: int|
            0 <= i < base.image.keys.len() && (#[trigger] base.image.keys[i]) is Some implies
            !others.contains(base.image.keys[i]->0) by {
            let key = base.image.keys[i]->0;
            assert(model.uses(group_id, i, key));
            if others.contains(key) {
                let (a, j) = choose|a: u64, j: int| #[trigger] without.uses(a, j, key);
                assert(model.uses(a, j, key));
            }
        }
    }
    assert(addressed(base.image, start.addresses));
}

/// Taking tiles into the cache of a group leaves the tiles of all groups apart.
pub proof fn lemma_caching_keeps_tiles_apart(
    model: CompositeModel,
    group_id: u64,
    extent: CopyExtent,
    dirty: TileSelection,
)
    requires
        model.inv(),
        extent_fits(extent),
    ensures
        model.with_cached(group_id, extent, dirty) matches Ok((after, _)) ==> after.inv(),
{
    let start = model.copy_start(group_id, extent);
    let base = model.resized(group_id, extent);
    let without = without_group(model, group_id, extent);
    let others = tiles_of_others(model, group_id, extent);
    lemma_copies_start_apart(model, group_id, extent);
    let plan = crate::renderer::group_cache::copied(
        base.image,
        base.instances.len() > 0,
        !model.fits(group_id, extent),
        dirty,
    );
    lemma_copies_keep_tiles_apart(start, plan.tiles, base.image.keys.len() as int, others);
    if let Ok((after, _)) = model.with_cached(group_id, extent, dirty) {
        let image = after.groups[group_id].image;
        assert forall|a: u64, i: int, key: TileKey| #[trigger] after.uses(a, i, key) implies (
        if a == group_id {
            image.keys[i] == Some(key) && !others.contains(key)
        } else {
            without.uses(a, i, key) && others.contains(key)
        }) by {
            if a != group_id {
                assert(without.uses(a, i, key));
            }
        }
        assert forall|id: u64| #[trigger] after.groups.dom().contains(id) implies
            after.groups[id].image.inv() && addressed(after.groups[id].image, after.addresses) by {
            if id != group_id {
                assert(without.groups.dom().contains(id));
                let other = without.groups[id].image;
                assert forall|i: int|
                    0 <= i < other.keys.len() && (#[trigger] other.keys[i]) is Some implies
                    after.addresses.dom().contains(other.keys[i]->0) by {
                    assert(without.uses(id, i, other.keys[i]->0));
                }
            }
        }
    }
}

/// Taking tiles into the cache of a group leaves the atlas the same tiles.
proof fn lemma_caching_keeps_every_tile(
    model: CompositeModel,
    group_id: u64,
    extent: CopyExtent,
    dirty: TileSelection,
    tile: FreshTile,
)
    requires
        model.inv(),
        extent_fits(extent),
    ensures
        model.with_cached(group_id, extent, dirty) matches Ok((after, _)) ==> after.tiles().holds(
            tile,
        ) == model.tiles().holds(tile),
{
    let start = model.copy_start(group_id, extent);
    let base = model.resized(group_id, extent);
    lemma_copies_start_apart(model, group_id, extent);
    let plan = crate::renderer::group_cache::copied(
        base.image,
        base.instances.len() > 0,
        !model.fits(group_id, extent),
        dirty,
    );
    lemma_copies_keep_every_tile(
        start,
        plan.tiles,
        base.image.keys.len() as int,
        tiles_of_others(model, group_id, extent),
        tile,
    );
    crate::renderer::group_tiles::lemma_release_keeps_every_tile(
        model.tiles(),
        model.existing(group_id, extent).image.placed(),
        tile,
    );
}

pub proof fn lemma_blank_group(extent: CopyExtent)
    requires
        extent_fits(extent),
    ensures
        blank_group(extent).image.inv(),
        blank_group(extent).image.layout.size == (TilePos { x: extent.width, y: extent.height }),
        forall|i: int|
            0 <= i < blank_group(extent).image.keys.len()
                ==> #[trigger] blank_group(extent).image.keys[i] is None,
{
    let layout = ImageLayout::for_size(extent.width, extent.height);
    assert(0 <= layout.tile_count()) by (nonlinear_arith)
        requires
            layout.tile_count() == layout.tiles_per_row * layout.tiles_per_column,
    ;
}

/// Where neither groups nor tiles change, the tiles stay apart.
pub proof fn lemma_same_tiles_stay_apart(model: CompositeModel, after: CompositeModel)
    requires
        model.inv(),
        after.groups == model.groups,
        after.addresses == model.addresses,
        after.fresh == model.fresh,
    ensures
        after.inv(),
{
    assert forall|a: u64, i: int, b: u64, j: int, key: TileKey| #[trigger]
        after.uses(a, i, key) && #[trigger] after.uses(b, j, key) implies a == b && i == j by {
        assert(model.uses(a, i, key) && model.uses(b, j, key));
    }
}

/// A group that is put back with the image that it had leaves the tiles apart.
proof fn lemma_drawing_keeps_tiles_apart(
    model: CompositeModel,
    after: CompositeModel,
    group_id: u64,
)
    requires
        model.inv(),
        model.groups.dom().contains(group_id),
        after.groups == model.groups.insert(group_id, after.groups[group_id]),
        after.groups[group_id].image == model.groups[group_id].image,
        after.addresses == model.addresses,
        after.fresh == model.fresh,
    ensures
        after.inv(),
{
    assert forall|a: u64, i: int, b: u64, j: int, key: TileKey| #[trigger]
        after.uses(a, i, key) && #[trigger] after.uses(b, j, key) implies a == b && i == j by {
        assert(model.uses(a, i, key) && model.uses(b, j, key));
    }
    assert forall|id: u64| #[trigger] after.groups.dom().contains(id) implies
        after.groups[id].image.inv() && addressed(after.groups[id].image, after.addresses) by {
        assert(model.groups.dom().contains(id));
    }
}

/// Gives a cached group another blend mode, for which its instances are built
/// anew.
fn reblend_group(
    entry: GroupTargetCacheEntry,
    blend: BlendMode,
    addresses: &KeyMap<TileKey, TileAddress>,
) -> (reblended: GroupTargetCacheEntry)
    requires
        entry@.image.inv(),
        addressed(entry@.image, addresses@),
    ensures
        reblended@ == with_blend(entry@, blend, addresses@),
{
    let mut entry = entry;
    if entry.blend != blend {
        proof {
            lemma_placed_resolves(entry@.image, addresses@, entry@.image.keys.len() as int);
        }
        entry.draw_instances = build_group_tile_draw_instances(&entry.image, blend, addresses);
        entry.blend = blend;
    }
    entry
}

/// Draws a cached group into the target, if it is to be drawn, and puts it back
/// into the cache.
fn emit_group_target_if_needed(
    run: &mut CompositeRun,
    group_id: u64,
    entry: GroupTargetCacheEntry,
    emit_tiles: &Option<KeySet<TileCoord>>,
    emission: CompositeEmission,
)
    ensures
        final(run)@ == old(run)@.with_group_drawn(
            group_id,
            entry@,
            crate::renderer::planning::selection(*emit_tiles),
            emission,
        ),
        final(run).cache.leaf_draw_cache == old(run).cache.leaf_draw_cache,
{
    let ghost before = run@;
    match emission {
        CompositeEmission::EmitToTarget => {
            let instances = resolve_effective_draw_instances(
                &entry.draw_instances,
                emit_tiles.as_ref(),
            );
            if instances.len() > 0 {
                run.actions.push(CompositeAction::Draw { atlas: DrawAtlas::Groups, instances });
            }
        },
        CompositeEmission::CacheOnly => {},
    }
    run.cache.group_target_cache.insert(group_id, entry);
    proof {
        assert(run@ =~= before.with_group_drawn(
            group_id,
            entry@,
            crate::renderer::planning::selection(*emit_tiles),
            emission,
        ));
    }
}

/// Takes the tiles of a group's texture into the group's cache, and says which
/// tiles are to be copied.
fn update_group_cache_from_texture(
    run: &mut CompositeRun,
    group_id: u64,
    cache_extent: CopyExtent,
    dirty_tiles: Option<&KeySet<TileCoord>>,
) -> (result: Result<Vec<PlacedTile>, CompositeFault>)
    requires
        old(run)@.inv(),
        extent_fits(cache_extent),
    ensures
        match old(run)@.with_cached(
            group_id,
            cache_extent,
            crate::renderer::planning::selected(dirty_tiles),
        ) {
            Ok((after, copies)) => final(run)@.inv() && final(run)@ == after && result is Ok
                && result->Ok_0@ == copies,
            Err(fault) => result == Err::<Vec<PlacedTile>, _>(fault),
        },
        final(run).cache.leaf_draw_cache == old(run).cache.leaf_draw_cache,
{
    let ghost before = run@;
    let ghost dirty = crate::renderer::planning::selected(dirty_tiles);
    let removed = run.cache.group_target_cache.remove(group_id);
    let existing = match removed {
        Some(entry) => entry,
        None => create_group_target_cache_entry(cache_extent),
    };
    proof {
        if before.groups.dom().contains(group_id) {
            assert(before.groups[group_id] == existing@);
        } else {
            assert(existing@ =~= blank_group(cache_extent));
        }
    }
    assert(existing@ == before.existing(group_id, cache_extent));
    let (base, given_up) = resize_group_cache_entry_if_needed(existing, cache_extent);
    let resized = given_up.is_some();
    proof {
        assert(resized == !before.fits(group_id, cache_extent));
        if resized {
            assert(base@ =~= blank_group(cache_extent));
        }
        assert(base@ == before.resized(group_id, cache_extent));
    }
    match given_up {
        Some(old_entry) => {
            release_tiles(&old_entry.image, &mut run.addresses, &mut run.fresh);
        },
        None => {},
    }
    let ghost start = before.copy_start(group_id, cache_extent);
    proof {
        assert(run.addresses@ == start.addresses && run.fresh@ == start.fresh);
        assert(addressed(base@.image, start.addresses));
    }
    let plan = plan_group_cache_update(&base, resized, dirty_tiles);
    let ghost base_model = base@;
    let GroupTargetCacheEntry { image, draw_instances, blend } = base;
    let mut image = image;
    let copies = match copy_group_cache_tiles(
        &mut image,
        &plan.tiles,
        &mut run.fresh,
        &mut run.addresses,
    ) {
        Ok(copies) => copies,
        Err(fault) => {
            return Err(fault);
        },
    };
    let draw_instances = if plan.rebuild_draw_instances {
        proof {
            lemma_placed_resolves(image@, run.addresses@, image@.keys.len() as int);
        }
        build_group_tile_draw_instances(&image, blend, &run.addresses)
    } else {
        draw_instances
    };
    let entry = GroupTargetCacheEntry { image, draw_instances, blend };
    let ghost entry_model = entry@;
    run.cache.group_target_cache.insert(group_id, entry);
    proof {
        let (after, expected) = before.with_cached(group_id, cache_extent, dirty)->Ok_0;
        assert(after.groups[group_id] =~= entry_model);
        assert(run@.groups =~= after.groups);
        assert(run@ =~= after);
        lemma_caching_keeps_tiles_apart(before, group_id, cache_extent, dirty);
    }
    Ok(copies)
}

/// Carries out the plan for a group.
fn render_group_node_plan<R: RenderDataResolver>(
    run: &mut CompositeRun,
    render_data_resolver: &R,
    cache_extent: CopyExtent,
    plan: &CompositeNodePlan,
    emission: CompositeEmission,
) -> (result: Result<(), CompositeFault>)
    requires
        plan is Group,
        resolves(render_data_resolver),
        extent_fits(cache_extent),
        old(run)@.inv(),
    ensures
        match rendered(
            render_data_resolver,
            cache_extent,
            crate::renderer::composite_plan::plan_model(*plan),
            emission,
            old(run)@,
        ) {
            Ok(after) => result is Ok && final(run)@ == after && final(run)@.inv(),
            Err(fault) => result == Err::<(), _>(fault),
        },
        crate::renderer::draw_builders::all_indexed(old(run).cache.leaf_draw_cache@)
            ==> crate::renderer::draw_builders::all_indexed(final(run).cache.leaf_draw_cache@),
    decreases plan, 0nat,
{
    let ghost before = run@;
    match plan {
        CompositeNodePlan::Leaf { .. } => Ok(()),
        CompositeNodePlan::Group { group_id, blend, decision, emit_tiles, children } => {
            let from_cache = match decision.mode {
                GroupRerenderMode::UseCache => true,
                GroupRerenderMode::Rerender => false,
            };
            let nothing_to_render = match &decision.rerender_tiles {
                Some(tiles) => tiles.is_empty(),
                None => false,
            };
            if from_cache || nothing_to_render {
                let removed = run.cache.group_target_cache.remove(*group_id);
                let entry = match removed {
                    Some(entry) => entry,
                    None => {
                        return Err(CompositeFault::MissingGroupCache { group_id: *group_id });
                    },
                };
                proof {
                    assert(before.groups[*group_id] == entry@);
                }
                let entry = if from_cache {
                    reblend_group(entry, *blend, &run.addresses)
                } else {
                    entry
                };
                emit_group_target_if_needed(run, *group_id, entry, emit_tiles, emission);
                proof {
                    assert(run@.groups =~= before.groups.insert(*group_id, entry@));
                    lemma_drawing_keeps_tiles_apart(before, run@, *group_id);
                }
                return Ok(());
            }
            run.actions.push(CompositeAction::OpenGroup { group_id: *group_id });
            let ghost opened = before.with_action(ActionModel::OpenGroup { group_id: *group_id });
            proof {
                assert(run@ =~= opened);
                lemma_same_tiles_stay_apart(before, opened);
                crate::renderer::composite_plan::lemma_plan_models(children@);
            }
            let ghost models = crate::renderer::composite_plan::plan_models(children@);
            let ghost outcome = rendered(
                render_data_resolver,
                cache_extent,
                crate::renderer::composite_plan::plan_model(*plan),
                emission,
                before,
            );
            let mut index: usize = 0;
            assert(models.take(0) =~= Seq::<PlanModel>::empty());
            while index < children.len()
                invariant
                    index <= children@.len(),
                    *plan matches CompositeNodePlan::Group { children: c, .. } && c == children,
                    models == crate::renderer::composite_plan::plan_models(children@),
                    models.len() == children@.len(),
                    forall|i: int|
                        0 <= i < children@.len() ==> #[trigger] models[i]
                            == crate::renderer::composite_plan::plan_model(children@[i]),
                    resolves(render_data_resolver),
                    extent_fits(cache_extent),
                    run@.inv(),
                    crate::renderer::draw_builders::all_indexed(old(run).cache.leaf_draw_cache@)
                        ==> crate::renderer::draw_builders::all_indexed(
                        run.cache.leaf_draw_cache@,
                    ),
                    outcome == rendered(
                        render_data_resolver,
                        cache_extent,
                        crate::renderer::composite_plan::plan_model(*plan),
                        emission,
                        old(run)@,
                    ),
                    rendered_all(
                        render_data_resolver,
                        cache_extent,
                        models,
                        opened,
                    ) matches Err(fault) ==> outcome == Err::<CompositeModel, _>(fault),
                    rendered_all(
                        render_data_resolver,
                        cache_extent,
                        models.take(index as int),
                        opened,
                    ) == Ok::<_, CompositeFault>(run@),
                decreases children@.len() - index,
            {
                proof {
                    assert(decreases_to!(*plan => children@[index as int]));
                    let longer = models.take(index + 1);
                    assert(longer.drop_last() =~= models.take(index as int));
                    assert(longer.last() == models[index as int]);
                    if rendered_all(render_data_resolver, cache_extent, longer, opened) is Err {
                        lemma_render_fault_stays(
                            render_data_resolver,
                            cache_extent,
                            longer,
                            models,
                            opened,
                        );
                    }
                }
                match render_composite_node_plan(
                    run,
                    render_data_resolver,
                    cache_extent,
                    &children[index],
                    CompositeEmission::EmitToTarget,
                ) {
                    Ok(()) => {},
                    Err(fault) => {
                        return Err(fault);
                    },
                }
                index += 1;
            }
            assert(models.take(index as int) =~= models);
            let ghost composed = run@;
            let copies = match update_group_cache_from_texture(
                run,
                *group_id,
                cache_extent,
                decision.rerender_tiles.as_ref(),
            ) {
                Ok(copies) => copies,
                Err(fault) => {
                    return Err(fault);
                },
            };
            let ghost cached = run@;
            let ghost copied = copies@;
            run.actions.push(CompositeAction::CloseGroup { group_id: *group_id, copies });
            let ghost closed = cached.with_action(
                ActionModel::CloseGroup { group_id: *group_id, copies: copied },
            );
            proof {
                assert(run@ =~= closed);
                lemma_same_tiles_stay_apart(cached, closed);
                assert(closed.groups.dom().contains(*group_id));
            }
            let entry = run.cache.group_target_cache.remove(*group_id).unwrap();
            proof {
                assert(closed.groups[*group_id] == entry@);
            }
            let entry = reblend_group(entry, *blend, &run.addresses);
            emit_group_target_if_needed(run, *group_id, entry, emit_tiles, emission);
            proof {
                assert(run@.groups =~= closed.groups.insert(*group_id, entry@));
                lemma_drawing_keeps_tiles_apart(closed, run@, *group_id);
            }
            Ok(())
        },
    }
}

/// Carries out the plan for a node: brings the caches up to date and lists the
/// steps for the device.
pub fn render_composite_node_plan<R: RenderDataResolver>(
    run: &mut CompositeRun,
    render_data_resolver: &R,
    cache_extent: CopyExtent,
    node_plan: &CompositeNodePlan,
    emission: CompositeEmission,
) -> (result: Result<(), CompositeFault>)
    requires
        resolves(render_data_resolver),
        extent_fits(cache_extent),
        old(run)@.inv(),
    ensures
        match rendered(
            render_data_resolver,
            cache_extent,
            crate::renderer::composite_plan::plan_model(*node_plan),
            emission,
            old(run)@,
        ) {
            Ok(after) => result is Ok && final(run)@ == after && final(run)@.inv(),
            Err(fault) => result == Err::<(), _>(fault),
        },
        crate::renderer::draw_builders::all_indexed(old(run).cache.leaf_draw_cache@)
            ==> crate::renderer::draw_builders::all_indexed(final(run).cache.leaf_draw_cache@),
    decreases node_plan, 1nat,
{
    match node_plan {
        CompositeNodePlan::Leaf {
            layer_id,
            blend,
            image_source,
            should_rebuild,
            dirty_tiles,
            visible_tiles,
        } => {
            render_leaf_node_plan(
                run,
                render_data_resolver,
                *layer_id,
                *blend,
                *image_source,
                *should_rebuild,
                dirty_tiles,
                visible_tiles,
            );
            Ok(())
        },
        CompositeNodePlan::Group { .. } => render_group_node_plan(
            run,
            render_data_resolver,
            cache_extent,
            node_plan,
            emission,
        ),
    }
}

/// The identifier of the group at the root of the tree.
pub const ROOT_GROUP_ID: u64 = 0;

/// The instances that draw the whole document: those of the root group.
pub fn root_group_instances(cache_state: &CacheState) -> (instances: Result<
    &Vec<TileDrawInstance>,
    CompositeFault,
>)
    ensures
        match instances {
            Ok(list) => cache_state.group_target_cache@.dom().contains(ROOT_GROUP_ID) && *list
                == cache_state.group_target_cache@[ROOT_GROUP_ID].draw_instances,
            Err(fault) => !cache_state.group_target_cache@.dom().contains(ROOT_GROUP_ID) && fault
                == (CompositeFault::MissingGroupCache { group_id: ROOT_GROUP_ID }),
        },
{
    match cache_state.group_target_cache.get(ROOT_GROUP_ID) {
        Some(entry) => Ok(&entry.draw_instances),
        None => Err(CompositeFault::MissingGroupCache { group_id: ROOT_GROUP_ID }),
    }
}

/// A copy of one tile from a group's texture into the group atlas: a slot of
/// the texture, and a slot of a layer of the atlas.
#[derive(Debug, Clone, Copy, PartialEq, Eq, Structural)]
pub struct GroupTileCopy {
    pub source: SlotOrigin,
    pub destination: SlotOrigin,
    pub destination_layer: u32,
}

/// The copy of one tile from a group's texture into the group atlas. In the
/// texture the slots lie side by side.
pub fn copy_group_tile_from_texture(
    tile_coord: TileCoord,
    tile_address: TileAddress,
    group_atlas_layout: TileAtlasLayout,
) -> (copy: GroupTileCopy)
    requires
        tile_coord.tile_x * TILE_STRIDE <= u32::MAX,
        tile_coord.tile_y * TILE_STRIDE <= u32::MAX,
        group_atlas_layout.has_slot(tile_address.tile_index),
    ensures
        copy.source.x == tile_coord.tile_x * TILE_STRIDE,
        copy.source.y == tile_coord.tile_y * TILE_STRIDE,
        copy.destination == group_atlas_layout.origin(tile_address.tile_index),
        copy.destination_layer == tile_address.atlas_layer,
{
    GroupTileCopy {
        source: SlotOrigin {
            x: tile_coord.tile_x * TILE_STRIDE,
            y: tile_coord.tile_y * TILE_STRIDE,
        },
        destination: group_atlas_layout.slot_origin(tile_address.tile_index),
        destination_layer: tile_address.atlas_layer,
    }
}

/// The groups that are open after some steps, the innermost last, unless a
/// group was closed that was not the innermost.
pub open spec fn open_groups(actions: Seq<ActionModel>) -> Option<Seq<u64>>
    decreases actions.len(),
{
    if actions.len() == 0 {
        Some(Seq::empty())
    } else {
        match (open_groups(actions.drop_last()), actions.last()) {
            (None, _) => None,
            (Some(open), ActionModel::OpenGroup { group_id }) => Some(open.push(group_id)),
            (Some(open), ActionModel::CloseGroup { group_id, .. }) => if open.len() > 0
                && open.last() == group_id {
                Some(open.drop_last())
            } else {
                None
            },
            (Some(open), ActionModel::Draw { .. }) => Some(open),
        }
    }
}

/// Every group that a plan opens it closes again, inner groups before outer
/// ones: what is drawn for a node goes where the node belongs.
pub proof fn lemma_groups_are_closed<R: RenderDataResolver>(
    resolver: &R,
    extent: CopyExtent,
    plan: PlanModel,
    emission: CompositeEmission,
    model: CompositeModel,
)
    requires
        open_groups(model.actions) is Some,
    ensures
        rendered(resolver, extent, plan, emission, model) matches Ok(after) ==> open_groups(
            after.actions,
        ) == open_groups(model.actions),
    decreases plan,
{
    match plan {
        PlanModel::Leaf { .. } => {
            let after = rendered(resolver, extent, plan, emission, model)->Ok_0;
            assert(after.actions == model.actions || after.actions.drop_last() =~= model.actions);
        },
        PlanModel::Group { group_id, blend, decision, emit_tiles, children } => {
            if let Ok(after) = rendered(resolver, extent, plan, emission, model) {
                if decision.mode is UseCache || decision.tiles == Some(Set::<TileCoord>::empty()) {
                    assert(after.actions == model.actions || after.actions.drop_last()
                        =~= model.actions);
                } else {
                    let opened = model.with_action(ActionModel::OpenGroup { group_id });
                    let open = open_groups(model.actions)->0;
                    assert(opened.actions.drop_last() =~= model.actions);
                    assert(open_groups(opened.actions) == Some(open.push(group_id)));
                    lemma_all_groups_are_closed(resolver, extent, children, opened);
                    let composed = rendered_all(resolver, extent, children, opened)->Ok_0;
                    let (cached, copies) = composed.with_cached(
                        group_id,
                        extent,
                        decision.tiles,
                    )->Ok_0;
                    let closed = cached.with_action(ActionModel::CloseGroup { group_id, copies });
                    assert(closed.actions.drop_last() =~= composed.actions);
                    assert(open.push(group_id).drop_last() =~= open);
                    assert(open_groups(closed.actions) == Some(open));
                    assert(after.actions == closed.actions || after.actions.drop_last()
                        =~= closed.actions);
                }
            }
        },
    }
}

proof fn lemma_all_groups_are_closed<R: RenderDataResolver>(
    resolver: &R,
    extent: CopyExtent,
    plans: Seq<PlanModel>,
    model: CompositeModel,
)
    requires
        open_groups(model.actions) is Some,
    ensures
        rendered_all(resolver, extent, plans, model) matches Ok(after) ==> open_groups(
            after.actions,
        ) == open_groups(model.actions),
    decreases plans,
{
    if plans.len() > 0 {
        lemma_all_groups_are_closed(resolver, extent, plans.drop_last(), model);
        if let Ok(earlier) = rendered_all(resolver, extent, plans.drop_last(), model) {
            lemma_groups_are_closed(
                resolver,
                extent,
                plans.last(),
                CompositeEmission::EmitToTarget,
                earlier,
            );
        }
    }
}

/// A plan that asks for existing caches only can be carried out as long as the
/// group atlas has tiles left, and no group loses its cache.
pub proof fn lemma_existing_caches_suffice<R: RenderDataResolver>(
    resolver: &R,
    extent: CopyExtent,
    plan: PlanModel,
    emission: CompositeEmission,
    model: CompositeModel,
    cached_groups: Set<u64>,
)
    requires
        crate::renderer::composite_plan::caches_suffice(plan, cached_groups),
        cached_groups.subset_of(model.groups.dom()),
    ensures
        match rendered(resolver, extent, plan, emission, model) {
            Ok(after) => model.groups.dom().subset_of(after.groups.dom()),
            Err(fault) => fault == CompositeFault::NoFreshTile,
        },
    decreases plan,
{
    match plan {
        PlanModel::Leaf { .. } => {},
        PlanModel::Group { group_id, blend, decision, emit_tiles, children } => {
            if !(decision.mode is UseCache || decision.tiles == Some(Set::<TileCoord>::empty())) {
                let opened = model.with_action(ActionModel::OpenGroup { group_id });
                lemma_all_existing_caches_suffice(
                    resolver,
                    extent,
                    children,
                    opened,
                    cached_groups,
                );
                if let Ok(composed) = rendered_all(resolver, extent, children, opened) {
                    lemma_caching_faults(composed, group_id, extent, decision.tiles);
                }
            }
        },
    }
}

proof fn lemma_all_existing_caches_suffice<R: RenderDataResolver>(
    resolver: &R,
    extent: CopyExtent,
    plans: Seq<PlanModel>,
    model: CompositeModel,
    cached_groups: Set<u64>,
)
    requires
        crate::renderer::composite_plan::all_caches_suffice(plans, cached_groups),
        cached_groups.subset_of(model.groups.dom()),
    ensures
        match rendered_all(resolver, extent, plans, model) {
            Ok(after) => model.groups.dom().subset_of(after.groups.dom()),
            Err(fault) => fault == CompositeFault::NoFreshTile,
        },
    decreases plans,
{
    if plans.len() > 0 {
        lemma_all_existing_caches_suffice(
            resolver,
            extent,
            plans.drop_last(),
            model,
            cached_groups,
        );
        if let Ok(earlier) = rendered_all(resolver, extent, plans.drop_last(), model) {
            lemma_existing_caches_suffice(
                resolver,
                extent,
                plans.last(),
                CompositeEmission::EmitToTarget,
                earlier,
                cached_groups,
            );
        }
    }
}

/// Taking tiles into a cache fails for want of tiles only.
pub proof fn lemma_caching_faults(
    model: CompositeModel,
    group_id: u64,
    extent: CopyExtent,
    dirty: TileSelection,
)
    ensures
        match model.with_cached(group_id, extent, dirty) {
            Ok((after, _)) => after.groups.dom() == model.groups.dom().insert(group_id),
            Err(fault) => fault == CompositeFault::NoFreshTile,
        },
{
    let base = model.resized(group_id, extent);
    let plan = crate::renderer::group_cache::copied(
        base.image,
        base.instances.len() > 0,
        !model.fits(group_id, extent),
        dirty,
    );
    lemma_copy_faults(
        model.copy_start(group_id, extent),
        plan.tiles,
        base.image.keys.len() as int,
    );
    if let Ok((after, _)) = model.with_cached(group_id, extent, dirty) {
        assert(after.groups.dom() =~= model.groups.dom().insert(group_id));
    }
}

proof fn lemma_copy_faults(start: CopyProgress, tiles: Set<TileCoord>, count: int)
    ensures
        start.with_tiles(tiles, count) matches Err(fault) ==> fault == CompositeFault::NoFreshTile,
    decreases count,
{
    if count > 0 {
        lemma_copy_faults(start, tiles, count - 1);
    }
}

/// Copies take tiles into use; the atlas has the same tiles afterwards.
proof fn lemma_copies_keep_every_tile(
    start: CopyProgress,
    tiles: Set<TileCoord>,
    count: int,
    others: Set<TileKey>,
    tile: FreshTile,
)
    requires
        start.image.inv(),
        0 <= count <= start.image.keys.len(),
        addressed(start.image, start.addresses),
        (GroupTilesModel { addresses: start.addresses, fresh: start.fresh }).inv(),
        exclusive(start.image, others),
        others.subset_of(start.addresses.dom()),
    ensures
        start.with_tiles(tiles, count) matches Ok(after) ==> (GroupTilesModel {
            addresses: after.addresses,
            fresh: after.fresh,
        }).holds(tile) == (GroupTilesModel {
            addresses: start.addresses,
            fresh: start.fresh,
        }).holds(tile),
    decreases count,
{
    if count > 0 {
        lemma_copies_keep_every_tile(start, tiles, count - 1, others, tile);
        lemma_copies_keep_tiles_apart(start, tiles, count - 1, others);
        if let Ok(progress) = start.with_tiles(tiles, count - 1) {
            let coord = coord_at(start.image, count - 1);
            if tiles.contains(coord) && progress.image.key_at(coord) is None
                && progress.fresh.len() > 0 {
                let after = progress.with_tile(coord)->Ok_0;
                let held = GroupTilesModel {
                    addresses: progress.addresses,
                    fresh: progress.fresh,
                };
                let left = GroupTilesModel { addresses: after.addresses, fresh: after.fresh };
                let taken = held.fresh[0];
                assert(!held.addresses.dom().contains(taken.key));
                if held.fresh.contains(tile) {
                    let place = choose|i: int| 0 <= i < held.fresh.len() && held.fresh[i] == tile;
                    if place > 0 {
                        assert(left.fresh[place - 1] == tile);
                    }
                }
                if left.fresh.contains(tile) {
                    let place = choose|i: int| 0 <= i < left.fresh.len() && left.fresh[i] == tile;
                    assert(held.fresh[place + 1] == tile);
                }
                if tile.key == taken.key && tile.address == taken.address {
                    assert(held.fresh.contains(taken));
                }
            }
        }
    }
}

/// What carrying out a plan does to the group atlas: no tile gets lost, none is
/// made up, none is used at two places, and none is free and in use at once.
pub proof fn lemma_composing_keeps_tiles_apart<R: RenderDataResolver>(
    resolver: &R,
    extent: CopyExtent,
    plan: PlanModel,
    emission: CompositeEmission,
    model: CompositeModel,
    tile: FreshTile,
)
    requires
        extent_fits(extent),
        model.inv(),
    ensures
        rendered(resolver, extent, plan, emission, model) matches Ok(after) ==> after.inv()
            && after.tiles().holds(tile) == model.tiles().holds(tile),
    decreases plan,
{
    match plan {
        PlanModel::Leaf { .. } => {
            let after = rendered(resolver, extent, plan, emission, model)->Ok_0;
            lemma_same_tiles_stay_apart(model, after);
            assert(after.tiles() == model.tiles());
        },
        PlanModel::Group { group_id, blend, decision, emit_tiles, children } => {
            if let Ok(after) = rendered(resolver, extent, plan, emission, model) {
                if decision.mode is UseCache || decision.tiles == Some(Set::<TileCoord>::empty()) {
                    lemma_drawing_keeps_tiles_apart(model, after, group_id);
                    assert(after.tiles() == model.tiles());
                } else {
                    let opened = model.with_action(ActionModel::OpenGroup { group_id });
                    lemma_same_tiles_stay_apart(model, opened);
                    lemma_all_composing_keeps_tiles_apart(resolver, extent, children, opened, tile);
                    let composed = rendered_all(resolver, extent, children, opened)->Ok_0;
                    lemma_caching_keeps_tiles_apart(composed, group_id, extent, decision.tiles);
                    lemma_caching_keeps_every_tile(
                        composed,
                        group_id,
                        extent,
                        decision.tiles,
                        tile,
                    );
                    let (cached, copies) = composed.with_cached(
                        group_id,
                        extent,
                        decision.tiles,
                    )->Ok_0;
                    let closed = cached.with_action(ActionModel::CloseGroup { group_id, copies });
                    lemma_same_tiles_stay_apart(cached, closed);
                    lemma_drawing_keeps_tiles_apart(closed, after, group_id);
                    assert(opened.tiles() == model.tiles());
                    assert(after.tiles() == cached.tiles());
                }
            }
        },
    }
}

proof fn lemma_all_composing_keeps_tiles_apart<R: RenderDataResolver>(
    resolver: &R,
    extent: CopyExtent,
    plans: Seq<PlanModel>,
    model: CompositeModel,
    tile: FreshTile,
)
    requires
        extent_fits(extent),
        model.inv(),
    ensures
        rendered_all(resolver, extent, plans, model) matches Ok(after) ==> after.inv()
            && after.tiles().holds(tile) == model.tiles().holds(tile),
    decreases plans,
{
    if plans.len() > 0 {
        lemma_all_composing_keeps_tiles_apart(resolver, extent, plans.drop_last(), model, tile);
        if let Ok(earlier) = rendered_all(resolver, extent, plans.drop_last(), model) {
            lemma_composing_keeps_tiles_apart(
                resolver,
                extent,
                plans.last(),
                CompositeEmission::EmitToTarget,
                earlier,
                tile,
            );
        }
    }
}

} // verus!
