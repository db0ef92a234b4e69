//! From the document's changes to the plan of a frame, and back.
use std::sync::Arc;
use vstd::prelude::*;

use crate::collections::{KeyMap, KeySet};
use crate::render_protocol::RenderNodeSnapshot;
use crate::renderer::composite_plan::{
    build_composite_node_plan, CompositeNodePlan, DirtyExecutionPlan, DirtyPlanModel, PlanModel,
};
use crate::renderer::dirty::{
    DirtyModel, DirtyPropagationEngine, DirtyRect, DirtyRectMask, DirtyTileMask, RectMaskModel,
    RenderNodeKey, TileCoord, TileMaskModel,
};
use crate::renderer::geometry::{group_tile_count, group_tile_grid_from_document_size};
use crate::renderer::planning::{FrameSync, FrameVersion};
use crate::renderer::resolver::{
    DirtySinceModel, DirtySinceResult, RenderDataResolver, TileDirtySet,
};
use crate::renderer::state::{collect_leaf_layers, share_tree, CacheState, FrameState};
use crate::tiles::TILE_IMAGE;

verus! {

broadcast use crate::collections::group_viewed;

/// The tree that frames are made from, once it has been brought up to date.
pub open spec fn current_tree(frame: FrameState) -> Option<Arc<RenderNodeSnapshot>> {
    if frame.render_tree_dirty {
        match frame.bound_tree {
            Some(snapshot) => Some(snapshot.root),
            None => None,
        }
    } else {
        frame.cached_render_tree
    }
}

/// Brings the tree that frames are made from up to date.
pub fn refresh_cached_render_tree_if_dirty(frame_state: &mut FrameState)
    ensures
        final(frame_state).cached_render_tree == current_tree(*old(frame_state)),
        !final(frame_state).render_tree_dirty,
        final(frame_state).bound_tree == old(frame_state).bound_tree,
        final(frame_state).dirty_state_store == old(frame_state).dirty_state_store,
        final(frame_state).frame_sync == old(frame_state).frame_sync,
        final(frame_state).layer_dirty_versions == old(frame_state).layer_dirty_versions,
{
    if !frame_state.render_tree_dirty {
        return;
    }
    frame_state.cached_render_tree = match &frame_state.bound_tree {
        Some(snapshot) => Some(share_tree(&snapshot.root)),
        None => None,
    };
    frame_state.render_tree_dirty = false;
}

/// The edge of a tile in pixels, as a coordinate of a dirty rectangle.
pub open spec fn tile_edge(tile: int) -> i32 {
    if tile * TILE_IMAGE <= u32::MAX {
        (tile * TILE_IMAGE) as u32 as i32
    } else {
        u32::MAX as i32
    }
}

/// The number of the tile after a tile, which is never beyond the largest.
pub open spec fn next_tile(tile: u32) -> int {
    if tile < u32::MAX {
        tile + 1
    } else {
        u32::MAX as int
    }
}

/// The rectangle that a tile covers.
pub open spec fn tile_rect(tile: TileCoord) -> DirtyRect {
    DirtyRect {
        min_x: tile_edge(tile.tile_x as int),
        min_y: tile_edge(tile.tile_y as int),
        max_x: tile_edge(next_tile(tile.tile_x)),
        max_y: tile_edge(next_tile(tile.tile_y)),
    }
}

fn edge_of_tile(tile: u32) -> (edge: i32)
    ensures
        edge == tile_edge(tile as int),
{
    if tile > u32::MAX / TILE_IMAGE {
        u32::MAX as i32
    } else {
        let pixels: u32 = tile * TILE_IMAGE;
        pixels as i32
    }
}

fn rect_of_tile(tile: TileCoord) -> (rect: DirtyRect)
    ensures
        rect == tile_rect(tile),
{
    DirtyRect {
        min_x: edge_of_tile(tile.tile_x),
        min_y: edge_of_tile(tile.tile_y),
        max_x: edge_of_tile(tile.tile_x.saturating_add(1)),
        max_y: edge_of_tile(tile.tile_y.saturating_add(1)),
    }
}

/// A tile's rectangle holds exactly the pixels of the tile, if they can be
/// counted.
pub proof fn lemma_tile_rect_holds_its_tile(tile: TileCoord, x: int, y: int)
    requires
        (tile.tile_x + 1) * TILE_IMAGE <= i32::MAX,
        (tile.tile_y + 1) * TILE_IMAGE <= i32::MAX,
        x >= 0,
        y >= 0,
    ensures
        tile_rect(tile).holds(x, y) <==> x / (TILE_IMAGE as int) == tile.tile_x && y / (
        TILE_IMAGE as int) == tile.tile_y,
{
    let part = TILE_IMAGE as int;
    assert(part == 126);
    lemma_in_tile(x, tile.tile_x as int, part);
    lemma_in_tile(y, tile.tile_y as int, part);
}

proof fn lemma_in_tile(pixel: int, tile: int, part: int)
    requires
        pixel >= 0,
        tile >= 0,
        part > 0,
    ensures
        tile * part <= pixel < (tile + 1) * part <==> pixel / part == tile,
{
    if pixel / part == tile {
        vstd::arithmetic::div_mod::lemma_fundamental_div_mod(pixel, part);
        vstd::arithmetic::div_mod::lemma_mod_bound(pixel, part);
        assert((tile + 1) * part == tile * part + part) by (nonlinear_arith);
        assert(part * (pixel / part) == (pixel / part) * part) by (nonlinear_arith);
    }
    if tile * part <= pixel < (tile + 1) * part {
        assert((tile + 1) * part == tile * part + part) by (nonlinear_arith);
        vstd::arithmetic::div_mod::lemma_fundamental_div_mod_converse(
            pixel,
            part,
            tile,
            pixel - tile * part,
        );
    }
}

/// The marks after the rectangles of several tiles of a layer have been marked.
pub open spec fn with_tile_rects(marks: DirtyModel, layer_id: u64, tiles: Seq<TileCoord>) -> DirtyModel
    decreases tiles.len(),
{
    if tiles.len() == 0 {
        marks
    } else {
        with_tile_rects(marks, layer_id, tiles.drop_last()).with_rect(
            layer_id,
            tile_rect(tiles.last()),
        )
    }
}

/// The marks after the changes of a layer have been taken in. When it is not
/// known which tiles have changed, the whole layer is dirty.
pub open spec fn history_marked(
    marks: DirtyModel,
    layer_id: u64,
    changes: Option<DirtySinceModel>,
) -> DirtyModel {
    match changes {
        None => marks,
        Some(DirtySinceModel::UpToDate) => marks,
        Some(DirtySinceModel::HistoryTruncated) => marks.with_full(layer_id),
        Some(DirtySinceModel::AllSince { .. }) => marks.with_full(layer_id),
        Some(DirtySinceModel::TilesSince { tiles, .. }) => with_tile_rects(marks, layer_id, tiles),
    }
}

/// The version up to which the changes of a layer have been taken in, zero if
/// none has.
pub open spec fn since_version(versions: Map<u64, u64>, layer_id: u64) -> u64 {
    if versions.dom().contains(layer_id) {
        versions[layer_id]
    } else {
        0
    }
}

/// The version up to which the changes of a layer have been taken in
/// afterwards.
pub open spec fn history_version<R: RenderDataResolver>(
    resolver: &R,
    layer_id: u64,
    since: u64,
) -> u64 {
    match resolver.dirty_since(layer_id, since) {
        Some(DirtySinceModel::AllSince { latest_version }) => latest_version,
        Some(DirtySinceModel::TilesSince { latest_version, .. }) => latest_version,
        Some(DirtySinceModel::HistoryTruncated) => match resolver.version_of(layer_id) {
            Some(version) => version,
            None => since,
        },
        _ => since,
    }
}

/// Two sets of marks say the same of a layer.
pub open spec fn agree_on(left: DirtyModel, right: DirtyModel, layer_id: u64) -> bool {
    &&& crate::renderer::composite_plan::entry(left.masks, layer_id)
        == crate::renderer::composite_plan::entry(right.masks, layer_id)
    &&& crate::renderer::composite_plan::entry(left.rects, layer_id)
        == crate::renderer::composite_plan::entry(right.rects, layer_id)
}

/// What the marks say of a layer once the changes of the layers in `known` have
/// been taken in.
pub open spec fn marks_for<R: RenderDataResolver>(
    resolver: &R,
    before: DirtyModel,
    versions: Map<u64, u64>,
    known: Set<u64>,
    layer_id: u64,
) -> DirtyModel {
    if known.contains(layer_id) {
        history_marked(
            before,
            layer_id,
            resolver.dirty_since(layer_id, since_version(versions, layer_id)),
        )
    } else {
        before
    }
}

/// The marks after the changes of the layers of a tree have been taken in.
pub open spec fn follows_history<R: RenderDataResolver>(
    resolver: &R,
    tree: RenderNodeSnapshot,
    versions: Map<u64, u64>,
    before: DirtyModel,
    after: DirtyModel,
) -> bool {
    &&& after.document_composite_dirty == before.document_composite_dirty
    &&& forall|layer_id: u64|
        #![trigger after.masks.dom().contains(layer_id)]
        #![trigger after.rects.dom().contains(layer_id)]
        agree_on(
            after,
            marks_for(
                resolver,
                before,
                versions,
                crate::renderer::state::tree_layers(tree),
                layer_id,
            ),
            layer_id,
        )
}

/// The versions after the changes of the layers of a tree have been taken in:
/// those of its layers, and no others.
pub open spec fn versions_after<R: RenderDataResolver>(
    resolver: &R,
    tree: RenderNodeSnapshot,
    versions: Map<u64, u64>,
) -> Map<u64, u64> {
    Map::new(
        |layer_id: u64| crate::renderer::state::tree_layers(tree).contains(layer_id),
        |layer_id: u64| history_version(resolver, layer_id, since_version(versions, layer_id)),
    )
}

proof fn lemma_tile_rects_stay_in_layer(
    left: DirtyModel,
    right: DirtyModel,
    layer_id: u64,
    tiles: Seq<TileCoord>,
)
    requires
        agree_on(left, right, layer_id),
    ensures
        agree_on(
            with_tile_rects(left, layer_id, tiles),
            with_tile_rects(right, layer_id, tiles),
            layer_id,
        ),
        with_tile_rects(left, layer_id, tiles).document_composite_dirty
            == left.document_composite_dirty,
        forall|other: u64|
            other != layer_id ==> #[trigger] agree_on(
                with_tile_rects(left, layer_id, tiles),
                left,
                other,
            ),
    decreases tiles.len(),
{
    if tiles.len() > 0 {
        lemma_tile_rects_stay_in_layer(left, right, layer_id, tiles.drop_last());
        let inner = with_tile_rects(left, layer_id, tiles.drop_last());
        assert forall|other: u64| other != layer_id implies #[trigger] agree_on(
            with_tile_rects(left, layer_id, tiles),
            left,
            other,
        ) by {
            assert(agree_on(inner, left, other));
        }
    }
}

/// Taking in the changes of a layer depends on the marks of that layer only,
/// and changes no others.
proof fn lemma_history_stays_in_layer(
    left: DirtyModel,
    right: DirtyModel,
    layer_id: u64,
    changes: Option<DirtySinceModel>,
)
    requires
        agree_on(left, right, layer_id),
    ensures
        agree_on(
            history_marked(left, layer_id, changes),
            history_marked(right, layer_id, changes),
            layer_id,
        ),
        history_marked(left, layer_id, changes).document_composite_dirty
            == left.document_composite_dirty,
        forall|other: u64|
            other != layer_id ==> #[trigger] agree_on(
                history_marked(left, layer_id, changes),
                left,
                other,
            ),
{
    if let Some(DirtySinceModel::TilesSince { tiles, .. }) = changes {
        lemma_tile_rects_stay_in_layer(left, right, layer_id, tiles);
    }
}

/// Takes in what the document says has changed in the layers of the tree since
/// it was last asked, and forgets the versions of layers that are not in the
/// tree.
pub fn mark_dirty_from_tile_history<R: RenderDataResolver>(
    frame_state: &mut FrameState,
    resolver: &R,
    render_tree: Option<&RenderNodeSnapshot>,
)
    ensures
        match render_tree {
            Some(tree) => follows_history(
                resolver,
                *tree,
                old(frame_state).layer_dirty_versions@,
                old(frame_state).dirty_state_store@,
                final(frame_state).dirty_state_store@,
            ) && final(frame_state).layer_dirty_versions@ == versions_after(
                resolver,
                *tree,
                old(frame_state).layer_dirty_versions@,
            ),
            None => *final(frame_state) == *old(frame_state),
        },
        final(frame_state).bound_tree == old(frame_state).bound_tree,
        final(frame_state).cached_render_tree == old(frame_state).cached_render_tree,
        final(frame_state).render_tree_dirty == old(frame_state).render_tree_dirty,
        final(frame_state).frame_sync == old(frame_state).frame_sync,
{
    let tree = match render_tree {
        Some(tree) => tree,
        None => {
            return;
        },
    };
    let mut live_layers: KeySet<u64> = KeySet::new();
    collect_leaf_layers(tree, &mut live_layers);
    let ghost start = frame_state.dirty_state_store@;
    let ghost versions = frame_state.layer_dirty_versions@;
    proof {
        assert(live_layers@ =~= crate::renderer::state::tree_layers(*tree));
    }
    let layers = live_layers.to_vec();
    let mut index: usize = 0;
    while index < layers.len()
        invariant
            index <= layers@.len(),
            layers@.no_duplicates(),
            layers@.to_set() == live_layers@,
            live_layers@ == crate::renderer::state::tree_layers(*tree),
            start == old(frame_state).dirty_state_store@,
            versions == old(frame_state).layer_dirty_versions@,
            frame_state.bound_tree == old(frame_state).bound_tree,
            frame_state.cached_render_tree == old(frame_state).cached_render_tree,
            frame_state.render_tree_dirty == old(frame_state).render_tree_dirty,
            frame_state.frame_sync == old(frame_state).frame_sync,
            frame_state.dirty_state_store@.document_composite_dirty
                == start.document_composite_dirty,
            forall|layer_id: u64| #[trigger]
                agree_on(
                    frame_state.dirty_state_store@,
                    marks_for(resolver, start, versions, layers@.take(index as int).to_set(), layer_id),
                    layer_id,
                ),
            forall|layer_id: u64|
                #![trigger frame_state.layer_dirty_versions@.dom().contains(layer_id)]
                if layers@.take(index as int).contains(layer_id) {
                    frame_state.layer_dirty_versions@.dom().contains(layer_id)
                        && frame_state.layer_dirty_versions@[layer_id] == history_version(
                        resolver,
                        layer_id,
                        since_version(versions, layer_id),
                    )
                } else {
                    crate::renderer::composite_plan::entry(
                        frame_state.layer_dirty_versions@,
                        layer_id,
                    ) == crate::renderer::composite_plan::entry(versions, layer_id)
                },
        decreases layers@.len() - index,
    {
        let layer_id: u64 = layers[index];
        let ghost before = frame_state.dirty_state_store@;
        proof {
            lemma_prefix_contains(layers@, index as int);
            assert(agree_on(
                before,
                marks_for(
                    resolver,
                    start,
                    versions,
                    layers@.take(index as int).to_set(),
                    layer_id,
                ),
                layer_id,
            ));
            assert(crate::renderer::composite_plan::entry(
                frame_state.layer_dirty_versions@,
                layer_id,
            ) == crate::renderer::composite_plan::entry(versions, layer_id));
        }
        let since: u64 = match frame_state.layer_dirty_versions.get(layer_id) {
            Some(version) => *version,
            None => 0,
        };
        assert(since == since_version(versions, layer_id));
        let ghost changes = resolver.dirty_since(layer_id, since);
        let ghost older_versions = frame_state.layer_dirty_versions@;
        let last_version: u64 = match resolver.layer_dirty_since(layer_id, since) {
            None => since,
            Some(result) => {
                assert(changes == Some(result@));
                match result {
                    DirtySinceResult::UpToDate => since,
                    DirtySinceResult::HistoryTruncated => {
                        frame_state.dirty_state_store.mark_layer_full(layer_id);
                        match resolver.layer_version(layer_id) {
                            Some(version) => version,
                            None => since,
                        }
                    },
                    DirtySinceResult::HasChanges(query) => {
                        match &query.dirty_tiles {
                            TileDirtySet::All => {
                                frame_state.dirty_state_store.mark_layer_full(layer_id);
                            },
                            TileDirtySet::Tiles(tiles) => {
                                mark_tiles(frame_state, layer_id, tiles);
                            },
                        }
                        query.latest_version
                    },
                }
            },
        };
        frame_state.layer_dirty_versions.insert(layer_id, last_version);
        proof {
            let after = frame_state.dirty_state_store@;
            assert(after == history_marked(before, layer_id, changes));
            lemma_history_stays_in_layer(before, start, layer_id, changes);
            lemma_take_one_more(layers@, index as int);
            assert forall|other: u64| #[trigger]
                agree_on(
                    after,
                    marks_for(resolver, start, versions, layers@.take(index + 1).to_set(), other),
                    other,
                ) by {
                if other != layer_id {
                    assert(agree_on(after, before, other));
                    assert(agree_on(
                        before,
                        marks_for(resolver, start, versions, layers@.take(index as int).to_set(), other),
                        other,
                    ));
                }
            }
            assert forall|other: u64|
                #![trigger frame_state.layer_dirty_versions@.dom().contains(other)]
                if layers@.take(index + 1).contains(other) {
                    frame_state.layer_dirty_versions@.dom().contains(other)
                        && frame_state.layer_dirty_versions@[other] == history_version(
                        resolver,
                        other,
                        since_version(versions, other),
                    )
                } else {
                    crate::renderer::composite_plan::entry(
                        frame_state.layer_dirty_versions@,
                        other,
                    ) == crate::renderer::composite_plan::entry(versions, other)
                } by {
                if other != layer_id {
                    assert(older_versions.dom().contains(other)
                        == frame_state.layer_dirty_versions@.dom().contains(other));
                }
            }
        }
        index += 1;
    }
    let ghost updated = frame_state.layer_dirty_versions@;
    proof {
        assert(layers@.take(index as int) =~= layers@);
        assert forall|layer_id: u64| live_layers@.contains(layer_id) implies updated.dom().contains(
            layer_id,
        ) && updated[layer_id] == history_version(
            resolver,
            layer_id,
            since_version(versions, layer_id),
        ) by {
            assert(layers@.to_set().contains(layer_id));
            assert(layers@.take(index as int).contains(layer_id));
        }
    }
    frame_state.layer_dirty_versions.retain_keys(&live_layers);
    proof {
        assert forall|layer_id: u64| layers@.contains(layer_id) == live_layers@.contains(
            layer_id,
        ) by {
            assert(layers@.to_set().contains(layer_id) == layers@.contains(layer_id));
        }
        let after = frame_state.dirty_state_store@;
        assert forall|layer_id: u64|
            #![trigger after.masks.dom().contains(layer_id)]
            #![trigger after.rects.dom().contains(layer_id)]
            agree_on(
                after,
                marks_for(resolver, start, versions, live_layers@, layer_id),
                layer_id,
            ) by {
            assert(agree_on(
                after,
                marks_for(resolver, start, versions, layers@.to_set(), layer_id),
                layer_id,
            ));
        }
        let expected = versions_after(resolver, *tree, versions);
        assert(frame_state.layer_dirty_versions@ =~= expected);
    }
}

/// An element without an equal before it is not in the prefix before it.
proof fn lemma_prefix_contains(items: Seq<u64>, index: int)
    requires
        0 <= index < items.len(),
        items.no_duplicates(),
    ensures
        !items.take(index).contains(items[index]),
{
    if items.take(index).contains(items[index]) {
        let i = items.take(index).index_of(items[index]);
        assert(items[i] == items[index]);
    }
}

proof fn lemma_take_one_more(items: Seq<u64>, index: int)
    requires
        0 <= index < items.len(),
    ensures
        forall|item: u64| #[trigger]
            items.take(index + 1).contains(item) <==> items.take(index).contains(item) || item
                == items[index],
{
    assert forall|item: u64| #[trigger]
        items.take(index + 1).contains(item) <==> items.take(index).contains(item) || item
            == items[index] by {
        if items.take(index).contains(item) {
            let i = items.take(index).index_of(item);
            assert(items.take(index + 1)[i] == item);
        }
        assert(items.take(index + 1)[index] == items[index]);
        if items.take(index + 1).contains(item) && item != items[index] {
            let i = items.take(index + 1).index_of(item);
            assert(items.take(index)[i] == item);
        }
    }
}

/// Marks the rectangles of several tiles of a layer.
fn mark_tiles(frame_state: &mut FrameState, layer_id: u64, tiles: &Vec<TileCoord>)
    ensures
        final(frame_state).dirty_state_store@ == with_tile_rects(
            old(frame_state).dirty_state_store@,
            layer_id,
            tiles@,
        ),
        final(frame_state).bound_tree == old(frame_state).bound_tree,
        final(frame_state).cached_render_tree == old(frame_state).cached_render_tree,
        final(frame_state).render_tree_dirty == old(frame_state).render_tree_dirty,
        final(frame_state).frame_sync == old(frame_state).frame_sync,
        final(frame_state).layer_dirty_versions == old(frame_state).layer_dirty_versions,
{
    let mut index: usize = 0;
    while index < tiles.len()
        invariant
            index <= tiles@.len(),
            frame_state.dirty_state_store@ == with_tile_rects(
                old(frame_state).dirty_state_store@,
                layer_id,
                tiles@.take(index as int),
            ),
            frame_state.bound_tree == old(frame_state).bound_tree,
            frame_state.cached_render_tree == old(frame_state).cached_render_tree,
            frame_state.render_tree_dirty == old(frame_state).render_tree_dirty,
            frame_state.frame_sync == old(frame_state).frame_sync,
            frame_state.layer_dirty_versions == old(frame_state).layer_dirty_versions,
        decreases tiles@.len() - index,
    {
        let rect = rect_of_tile(tiles[index]);
        frame_state.dirty_state_store.mark_layer_rect(layer_id, rect);
        proof {
            assert(tiles@.take(index + 1).drop_last() =~= tiles@.take(index as int));
        }
        index += 1;
    }
    assert(tiles@.take(index as int) =~= tiles@);
}

/// The dirty areas of all layers, once their effects are taken into account.
pub open spec fn resolved_areas<R: RenderDataResolver>(marks: DirtyModel, resolver: &R) -> Map<
    u64,
    RectMaskModel,
> {
    Map::new(
        |layer_id: u64| marks.resolved_area(resolver, layer_id) is Some,
        |layer_id: u64| marks.resolved_area(resolver, layer_id)->0,
    )
}

/// The layers that are dirty in full.
pub open spec fn full_layers(areas: Map<u64, RectMaskModel>) -> Map<u64, TileMaskModel> {
    Map::new(
        |layer_id: u64|
            areas.dom().contains(layer_id) && areas[layer_id] == RectMaskModel::Full,
        |layer_id: u64| TileMaskModel::Full,
    )
}

/// The dirty tiles of the dirty nodes of a tree.
pub open spec fn node_masks(
    tree: RenderNodeSnapshot,
    areas: Map<u64, RectMaskModel>,
    group_tiles: nat,
) -> Map<RenderNodeKey, TileMaskModel> {
    let filed = DirtyPropagationEngine::areas(tree, areas);
    Map::new(
        |key: RenderNodeKey|
            filed.dom().contains(key) && crate::renderer::dirty::node_tiles(
                key,
                filed[key],
                group_tiles,
            ) is Some,
        |key: RenderNodeKey|
            crate::renderer::dirty::node_tiles(key, filed[key], group_tiles)->0,
    )
}

/// The dirty tiles of layers, where those of the tree's leaves count before
/// `base`.
pub open spec fn leaf_masks(
    base: Map<u64, TileMaskModel>,
    nodes: Map<RenderNodeKey, TileMaskModel>,
) -> Map<u64, TileMaskModel> {
    Map::new(
        |layer_id: u64|
            base.dom().contains(layer_id) || nodes.dom().contains(RenderNodeKey::Leaf(layer_id)),
        |layer_id: u64|
            if nodes.dom().contains(RenderNodeKey::Leaf(layer_id)) {
                nodes[RenderNodeKey::Leaf(layer_id)]
            } else {
                base[layer_id]
            },
    )
}

/// The dirty tiles of groups, where those of the tree's groups count before
/// `base`.
pub open spec fn group_masks(
    base: Map<u64, TileMaskModel>,
    nodes: Map<RenderNodeKey, TileMaskModel>,
) -> Map<u64, TileMaskModel> {
    Map::new(
        |group_id: u64|
            base.dom().contains(group_id) || nodes.dom().contains(RenderNodeKey::Group(group_id)),
        |group_id: u64|
            if nodes.dom().contains(RenderNodeKey::Group(group_id)) {
                nodes[RenderNodeKey::Group(group_id)]
            } else {
                base[group_id]
            },
    )
}

/// The dirty tiles of a frame. When every group is rendered anew, only the
/// layers that are dirty in full matter.
pub open spec fn dirty_planned(
    tree: Option<RenderNodeSnapshot>,
    areas: Map<u64, RectMaskModel>,
    force_group_rerender: bool,
    group_tiles: nat,
) -> DirtyPlanModel {
    if tree is None || force_group_rerender {
        DirtyPlanModel { force_group_rerender, leaves: full_layers(areas), groups: Map::empty() }
    } else {
        let nodes = node_masks(tree->0, areas, group_tiles);
        DirtyPlanModel {
            force_group_rerender,
            leaves: leaf_masks(full_layers(areas), nodes),
            groups: group_masks(Map::empty(), nodes),
        }
    }
}

/// The layers that are dirty in full.
pub fn collect_full_leaf_dirty_tiles(
    layer_dirty_rect_masks: &KeyMap<u64, DirtyRectMask>,
) -> (dirty_leaf_tiles: KeyMap<u64, DirtyTileMask>)
    ensures
        crate::collections::viewed(dirty_leaf_tiles@) == full_layers(
            crate::collections::viewed(layer_dirty_rect_masks@),
        ),
{
    let ghost areas = crate::collections::viewed(layer_dirty_rect_masks@);
    let mut dirty_leaf_tiles: KeyMap<u64, DirtyTileMask> = KeyMap::new();
    let layers = layer_dirty_rect_masks.keys();
    let mut index: usize = 0;
    while index < layers.len()
        invariant
            index <= layers@.len(),
            layers@.to_set() == layer_dirty_rect_masks@.dom(),
            areas == crate::collections::viewed(layer_dirty_rect_masks@),
            forall|layer_id: u64| #[trigger]
                dirty_leaf_tiles@.dom().contains(layer_id) <==> layers@.take(
                    index as int,
                ).to_set().contains(layer_id) && areas[layer_id] == RectMaskModel::Full,
            forall|layer_id: u64| #[trigger]
                dirty_leaf_tiles@.dom().contains(layer_id) ==> dirty_leaf_tiles@[layer_id]@
                    == TileMaskModel::Full,
        decreases layers@.len() - index,
    {
        let layer_id: u64 = layers[index];
        proof {
            assert(layers@.to_set().contains(layer_id));
            crate::collections::lemma_take_set(layers@, index + 1);
        }
        match layer_dirty_rect_masks.get(layer_id) {
            Some(mask) => {
                assert(areas[layer_id] == mask@);
                match mask {
                    DirtyRectMask::Full => {
                        dirty_leaf_tiles.insert(layer_id, DirtyTileMask::Full);
                    },
                    _ => {},
                }
            },
            None => {},
        }
        index += 1;
    }
    proof {
        assert(layers@.take(index as int) =~= layers@);
        assert(crate::collections::viewed(dirty_leaf_tiles@) =~= full_layers(areas));
    }
    dirty_leaf_tiles
}

/// Files the dirty tiles of nodes by leaves and groups.
pub fn split_node_dirty_tiles(
    node_dirty_tiles: KeyMap<RenderNodeKey, DirtyTileMask>,
    dirty_leaf_tiles: &mut KeyMap<u64, DirtyTileMask>,
    dirty_group_tiles: &mut KeyMap<u64, DirtyTileMask>,
)
    ensures
        crate::collections::viewed(final(dirty_leaf_tiles)@) == leaf_masks(
            crate::collections::viewed(old(dirty_leaf_tiles)@),
            crate::collections::viewed(node_dirty_tiles@),
        ),
        crate::collections::viewed(final(dirty_group_tiles)@) == group_masks(
            crate::collections::viewed(old(dirty_group_tiles)@),
            crate::collections::viewed(node_dirty_tiles@),
        ),
{
    let ghost all = crate::collections::viewed(node_dirty_tiles@);
    let ghost leaves = crate::collections::viewed(dirty_leaf_tiles@);
    let ghost groups = crate::collections::viewed(dirty_group_tiles@);
    let keys = node_dirty_tiles.keys();
    let mut index: usize = 0;
    proof {
        let none = all.restrict(keys@.take(0).to_set());
        assert(crate::collections::viewed(dirty_leaf_tiles@) =~= leaf_masks(leaves, none));
        assert(crate::collections::viewed(dirty_group_tiles@) =~= group_masks(groups, none));
    }
    while index < keys.len()
        invariant
            index <= keys@.len(),
            keys@.to_set() == node_dirty_tiles@.dom(),
            all == crate::collections::viewed(node_dirty_tiles@),
            crate::collections::viewed(dirty_leaf_tiles@) == leaf_masks(
                leaves,
                all.restrict(keys@.take(index as int).to_set()),
            ),
            crate::collections::viewed(dirty_group_tiles@) == group_masks(
                groups,
                all.restrict(keys@.take(index as int).to_set()),
            ),
        decreases keys@.len() - index,
    {
        let key = keys[index];
        let ghost shorter = all.restrict(keys@.take(index as int).to_set());
        let ghost longer = all.restrict(keys@.take(index + 1).to_set());
        proof {
            assert(keys@.to_set().contains(key));
            crate::collections::lemma_take_set(keys@, index + 1);
            assert(longer =~= shorter.insert(key, all[key]));
        }
        let mask = node_dirty_tiles.get(key).unwrap();
        assert(all[key] == mask@);
        match key {
            RenderNodeKey::Leaf(layer_id) => {
                dirty_leaf_tiles.insert(layer_id, mask.duplicate());
            },
            RenderNodeKey::Group(group_id) => {
                dirty_group_tiles.insert(group_id, mask.duplicate());
            },
        }
        proof {
            assert(crate::collections::viewed(dirty_leaf_tiles@) =~= leaf_masks(leaves, longer));
            assert(crate::collections::viewed(dirty_group_tiles@) =~= group_masks(groups, longer));
        }
        index += 1;
    }
    proof {
        assert(keys@.take(index as int) =~= keys@);
        assert(all.restrict(keys@.to_set()) =~= all);
    }
}

/// The tree behind a reference.
pub open spec fn tree_of(tree: Option<&RenderNodeSnapshot>) -> Option<RenderNodeSnapshot> {
    match tree {
        Some(tree) => Some(*tree),
        None => None,
    }
}

/// The dirty tiles of a frame.
pub fn build_dirty_execution_plan(
    render_tree: Option<&RenderNodeSnapshot>,
    layer_dirty_rect_masks: &KeyMap<u64, DirtyRectMask>,
    force_group_rerender: bool,
    group_tile_count: usize,
) -> (plan: DirtyExecutionPlan)
    ensures
        plan@ == dirty_planned(
            tree_of(render_tree),
            crate::collections::viewed(layer_dirty_rect_masks@),
            force_group_rerender,
            group_tile_count as nat,
        ),
{
    let ghost areas = crate::collections::viewed(layer_dirty_rect_masks@);
    let mut dirty_leaf_tiles = collect_full_leaf_dirty_tiles(layer_dirty_rect_masks);
    let mut dirty_group_tiles: KeyMap<u64, DirtyTileMask> = KeyMap::new();
    match render_tree {
        Some(tree) => {
            if !force_group_rerender {
                let propagation_engine = DirtyPropagationEngine::new(group_tile_count);
                let node_dirty_tiles = propagation_engine.collect_node_tile_masks(
                    tree,
                    layer_dirty_rect_masks,
                );
                proof {
                    assert(crate::collections::viewed(node_dirty_tiles@) =~= node_masks(
                        *tree,
                        areas,
                        group_tile_count as nat,
                    ));
                }
                split_node_dirty_tiles(
                    node_dirty_tiles,
                    &mut dirty_leaf_tiles,
                    &mut dirty_group_tiles,
                );
            }
        },
        None => {},
    }
    DirtyExecutionPlan { force_group_rerender, dirty_leaf_tiles, dirty_group_tiles }
}

/// What a frame is made from, and what it does.
#[derive(Debug)]
pub struct FramePlan {
    pub version: FrameVersion,
    pub render_tree: Option<Arc<RenderNodeSnapshot>>,
    pub composite_plan: Option<CompositeNodePlan>,
}

/// The plan of a frame, as a plain value.
pub open spec fn composite_model(plan: Option<CompositeNodePlan>) -> Option<PlanModel> {
    match plan {
        Some(plan) => Some(crate::renderer::composite_plan::plan_model(plan)),
        None => None,
    }
}

/// The tree behind a handle.
pub open spec fn shared_tree(tree: Option<Arc<RenderNodeSnapshot>>) -> Option<RenderNodeSnapshot> {
    match tree {
        Some(tree) => Some(*tree),
        None => None,
    }
}

/// The plan for a tree, given what is dirty.
pub open spec fn frame_composite<R: RenderDataResolver>(
    resolver: &R,
    tree: Option<RenderNodeSnapshot>,
    marks: DirtyModel,
    cache: CacheState,
) -> Option<PlanModel> {
    match tree {
        Some(tree) => {
            let grid = crate::renderer::geometry::group_grid(resolver.size().0, resolver.size().1);
            Some(
                crate::renderer::composite_plan::planned(
                    tree,
                    dirty_planned(
                        Some(tree),
                        resolved_areas(marks, resolver),
                        marks.document_composite_dirty,
                        (grid.0 * grid.1) as nat,
                    ),
                    crate::collections::viewed(cache.leaf_draw_cache@),
                    cache.group_target_cache@.dom(),
                    None,
                ),
            )
        },
        None => None,
    }
}

/// Plans a frame: takes in what has changed in the document, and decides what
/// is drawn anew. The tree that the plan is made from is handed out with it,
/// until the frame is committed.
pub fn build_frame_plan<R: RenderDataResolver>(
    frame_state: &mut FrameState,
    cache_state: &CacheState,
    render_data_resolver: &R,
    frame_id: u64,
) -> (plan: FramePlan)
    requires
        render_data_resolver.size().0 > 0,
        render_data_resolver.size().1 > 0,
        ({
            let grid = crate::renderer::geometry::group_grid(
                render_data_resolver.size().0,
                render_data_resolver.size().1,
            );
            grid.0 * grid.1 <= u32::MAX
        }),
    ensures
        plan.render_tree == current_tree(*old(frame_state)),
        plan.version == (FrameVersion {
            frame_id,
            snapshot_revision: old(frame_state).revision(),
            state_epoch: old(frame_state).frame_sync.state_epoch,
        }),
        composite_model(plan.composite_plan) == frame_composite(
            render_data_resolver,
            shared_tree(plan.render_tree),
            final(frame_state).dirty_state_store@,
            *cache_state,
        ),
        match plan.render_tree {
            Some(tree) => follows_history(
                render_data_resolver,
                *tree,
                old(frame_state).layer_dirty_versions@,
                old(frame_state).dirty_state_store@,
                final(frame_state).dirty_state_store@,
            ) && final(frame_state).layer_dirty_versions@ == versions_after(
                render_data_resolver,
                *tree,
                old(frame_state).layer_dirty_versions@,
            ),
            None => final(frame_state).dirty_state_store == old(frame_state).dirty_state_store
                && final(frame_state).layer_dirty_versions == old(
                frame_state,
            ).layer_dirty_versions,
        },
        final(frame_state).bound_tree == old(frame_state).bound_tree,
        final(frame_state).cached_render_tree is None,
        !final(frame_state).render_tree_dirty,
        final(frame_state).frame_sync == old(frame_state).frame_sync,
{
    refresh_cached_render_tree_if_dirty(frame_state);
    let render_tree = frame_state.cached_render_tree.take();
    mark_dirty_from_tile_history(
        frame_state,
        render_data_resolver,
        match &render_tree {
            Some(tree) => Some(&**tree),
            None => None,
        },
    );
    let layer_dirty_rect_masks = frame_state.dirty_state_store.resolve_layer_dirty_rect_masks(
        render_data_resolver,
    );
    proof {
        assert(crate::collections::viewed(layer_dirty_rect_masks@) =~= resolved_areas(
            frame_state.dirty_state_store@,
            render_data_resolver,
        ));
    }
    let force_group_rerender = frame_state.dirty_state_store.is_document_composite_dirty();
    let (document_width, document_height) = render_data_resolver.document_size();
    let (tiles_per_row, tiles_per_column) = group_tile_grid_from_document_size(
        document_width,
        document_height,
    );
    let composite_plan = match &render_tree {
        Some(tree) => {
            let dirty_plan = build_dirty_execution_plan(
                Some(&**tree),
                &layer_dirty_rect_masks,
                force_group_rerender,
                group_tile_count(tiles_per_row, tiles_per_column),
            );
            Some(build_composite_node_plan(&**tree, &dirty_plan, cache_state, None))
        },
        None => None,
    };
    let revision: u64 = frame_state.snapshot_revision();
    let version = frame_state.frame_sync.version(frame_id, revision);
    FramePlan { version, render_tree, composite_plan }
}

/// What has become of a frame.
#[derive(Debug)]
pub struct FrameExecutionResult {
    pub version: FrameVersion,
    pub render_tree: Option<Arc<RenderNodeSnapshot>>,
}

/// Commits a frame: nothing is dirty any more.
pub fn commit_frame_result(frame_state: &mut FrameState, frame_result: FrameExecutionResult)
    requires
        old(frame_state).frame_sync.allows(frame_result.version, old(frame_state).revision()),
    ensures
        final(frame_state).cached_render_tree == frame_result.render_tree,
        final(frame_state).dirty_state_store@ == DirtyModel::clean(false),
        final(frame_state).frame_sync == (FrameSync {
            last_committed_frame_id: Some(frame_result.version.frame_id),
            ..old(frame_state).frame_sync
        }),
        final(frame_state).bound_tree == old(frame_state).bound_tree,
        final(frame_state).render_tree_dirty == old(frame_state).render_tree_dirty,
        final(frame_state).layer_dirty_versions == old(frame_state).layer_dirty_versions,
{
    frame_state.cached_render_tree = frame_result.render_tree;
    frame_state.dirty_state_store.clear_layer_dirty_masks();
    frame_state.dirty_state_store.clear_document_composite_dirty();
    let revision: u64 = frame_state.snapshot_revision();
    frame_state.frame_sync.commit(frame_result.version, revision);
}

/// Tells whether a frame may be committed: nothing has changed since it was
/// planned.
pub fn can_commit_frame(frame_state: &FrameState, version: FrameVersion) -> (allowed: bool)
    ensures
        allowed == frame_state.frame_sync.allows(version, frame_state.revision()),
{
    frame_state.frame_sync.can_commit(version, frame_state.snapshot_revision())
}

/// The identifier of the frame after the last one that was committed.
pub fn next_frame_id(frame_state: &FrameState) -> (frame_id: u64)
    ensures
        frame_id == match frame_state.frame_sync.last_committed_frame_id {
            Some(last) => if last < u64::MAX {
                (last + 1) as u64
            } else {
                u64::MAX
            },
            None => 0,
        },
{
    match frame_state.frame_sync.last_committed_frame_id {
        Some(last) => last.saturating_add(1),
        None => 0,
    }
}

/// A frame that is committed right after it was planned, under the next
/// identifier, is always accepted, unless identifiers have run out.
pub proof fn lemma_planned_frame_can_be_committed(frame: FrameState, version: FrameVersion)
    requires
        version.state_epoch == frame.frame_sync.state_epoch,
        version.snapshot_revision == frame.revision(),
        frame.frame_sync.last_committed_frame_id matches Some(last) ==> version.frame_id == last
            + 1,
    ensures
        frame.frame_sync.allows(version, frame.revision()),
{
}

/// After a frame has been committed and while the document does not change,
/// the next frame draws the whole tree from the cache of its root.
pub proof fn lemma_second_frame_draws_from_cache<R: RenderDataResolver>(
    resolver: &R,
    tree: RenderNodeSnapshot,
    cache: CacheState,
)
    requires
        tree matches RenderNodeSnapshot::Group { group_id, .. }
            && cache.group_target_cache@.dom().contains(group_id),
    ensures
        frame_composite(resolver, Some(tree), DirtyModel::clean(false), cache) matches Some(
            PlanModel::Group { decision, children, .. },
        ) && decision.mode is UseCache && children.len() == 0,
{
    let marks = DirtyModel::clean(false);
    let areas = resolved_areas(marks, resolver);
    assert(areas =~= Map::<u64, RectMaskModel>::empty());
    let grid = crate::renderer::geometry::group_grid(resolver.size().0, resolver.size().1);
    let group_tiles = (grid.0 * grid.1) as nat;
    let filed = DirtyPropagationEngine::areas(tree, areas);
    crate::renderer::render_tree::lemma_clean_tree_files_nothing(tree, areas, Map::empty());
    assert(node_masks(tree, areas, group_tiles).dom() =~= Set::<RenderNodeKey>::empty());
}

} // verus!
