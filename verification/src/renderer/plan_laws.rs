//! What a frame plans, in terms of what is dirty and what is cached.
use vstd::prelude::*;

use crate::render_protocol::{BlendMode, ImageHandle, RenderNodeSnapshot};
use crate::renderer::composite_plan::{DirtyPlanModel, LeafModel, PlanModel};
use crate::renderer::dirty::{
    DirtyModel, DirtyRect, RectMaskModel, RenderNodeKey, TileCoord, TileMaskModel,
};
use crate::renderer::plan_stats::PlanCounts;
use crate::renderer::planning::TileSelection;
use crate::renderer::resolver::{DirtySinceModel, ImageSource, RenderDataResolver};
use crate::renderer::state::CacheState;

verus! {

/// A group is rendered anew exactly if that is forced, if it has no cache, or if it is
/// dirty. Unless it is only partly dirty and was cached, all tiles that are concerned
/// are rendered anew; otherwise those of them that are dirty.
pub proof fn lemma_groups_are_rendered_anew_when_needed(
    force: bool,
    missing: bool,
    dirty: Option<TileMaskModel>,
    active: TileSelection,
    tile: TileCoord,
)
    ensures
        ({
            let decision = crate::renderer::planning::decided(force, missing, dirty, active);
            let concerned = active is Some ==> active->0.contains(tile);
            &&& decision.mode is Rerender <==> force || missing || dirty is Some
            &&& decision.mode is UseCache <==> !(force || missing || dirty is Some)
            &&& decision.mode is UseCache ==> decision.tiles is None
            &&& decision.mode is Rerender ==> match dirty {
                Some(TileMaskModel::Partial(tiles)) => if force || missing {
                    decision.tiles == active
                } else {
                    decision.tiles is Some && (decision.tiles->0.contains(tile)
                        <==> tiles.contains(tile) && concerned)
                },
                _ => decision.tiles == active,
            }
        }),
{
}

/// A leaf is planned with the image of its layer. It is built anew exactly if it is
/// dirty, or if what is cached for its layer is missing, empty, or made for another
/// image or blend mode; the tiles that are concerned are drawn.
pub proof fn lemma_leaves_are_planned(
    layer_id: u64,
    blend: BlendMode,
    image_handle: ImageHandle,
    dirty: DirtyPlanModel,
    leaves: Map<u64, LeafModel>,
    cached_groups: Set<u64>,
    active: TileSelection,
)
    ensures
        ({
            let plan = crate::renderer::composite_plan::planned(
                RenderNodeSnapshot::Leaf { layer_id, blend, image_handle },
                dirty,
                leaves,
                cached_groups,
                active,
            );
            let source = ImageSource::LayerImage { image_handle };
            let cached = leaves[layer_id];
            let current = leaves.dom().contains(layer_id) && cached.blend == blend
                && cached.image_source == source && cached.instances.len() > 0;
            &&& plan matches PlanModel::Leaf {
                layer_id: drawn,
                blend: with,
                image_source,
                should_rebuild,
                dirty_tiles,
                visible_tiles,
            }
            &&& drawn == layer_id
            &&& with == blend
            &&& image_source == source
            &&& should_rebuild <==> dirty.leaves.dom().contains(layer_id) || !current
            &&& dirty_tiles is Some <==> dirty.leaves.dom().contains(layer_id)
            &&& dirty_tiles is Some ==> dirty_tiles->0 == dirty.leaves[layer_id]
            &&& visible_tiles == active
        }),
{
}

/// A group that is drawn from its cache is drawn at the tiles that are concerned, and
/// nothing is planned below it. One that is rendered anew is drawn at the tiles that
/// are, and each of its children is planned for these, in order.
pub proof fn lemma_groups_are_planned(
    node: RenderNodeSnapshot,
    dirty: DirtyPlanModel,
    leaves: Map<u64, LeafModel>,
    cached_groups: Set<u64>,
    active: TileSelection,
)
    ensures
        node matches RenderNodeSnapshot::Group { group_id, blend, children } ==> ({
            let plan = crate::renderer::composite_plan::planned(
                node,
                dirty,
                leaves,
                cached_groups,
                active,
            );
            &&& plan matches PlanModel::Group {
                group_id: drawn,
                blend: with,
                decision,
                emit_tiles,
                children: below,
            }
            &&& drawn == group_id
            &&& with == blend
            &&& decision.mode is Rerender <==> dirty.force_group_rerender
                || !cached_groups.contains(group_id) || dirty.groups.dom().contains(group_id)
            &&& decision == crate::renderer::planning::decided(
                dirty.force_group_rerender,
                !cached_groups.contains(group_id),
                if dirty.groups.dom().contains(group_id) {
                    Some(dirty.groups[group_id])
                } else {
                    None
                },
                active,
            )
            &&& decision.mode is UseCache ==> emit_tiles == active && below.len() == 0
            &&& decision.mode is Rerender ==> emit_tiles == decision.tiles && below.len()
                == children@.len() && forall|i: int|
                0 <= i < children@.len() ==> #[trigger] below[i]
                    == crate::renderer::composite_plan::planned(
                    children@[i],
                    dirty,
                    leaves,
                    cached_groups,
                    decision.tiles,
                )
        }),
{
    if let RenderNodeSnapshot::Group { group_id, blend, children } = node {
        let plan = crate::renderer::composite_plan::planned(
            node,
            dirty,
            leaves,
            cached_groups,
            active,
        );
        lemma_children_are_planned(
            children@,
            dirty,
            leaves,
            cached_groups,
            plan->Group_decision.tiles,
        );
    }
}

proof fn lemma_children_are_planned(
    nodes: Seq<RenderNodeSnapshot>,
    dirty: DirtyPlanModel,
    leaves: Map<u64, LeafModel>,
    cached_groups: Set<u64>,
    active: TileSelection,
)
    ensures
        ({
            let plans = crate::renderer::composite_plan::planned_all(
                nodes,
                dirty,
                leaves,
                cached_groups,
                active,
            );
            &&& plans.len() == nodes.len()
            &&& forall|i: int|
                0 <= i < nodes.len() ==> #[trigger] plans[i]
                    == crate::renderer::composite_plan::planned(
                    nodes[i],
                    dirty,
                    leaves,
                    cached_groups,
                    active,
                )
        }),
    decreases nodes.len(),
{
    if nodes.len() > 0 {
        let shorter = nodes.drop_last();
        lemma_children_are_planned(shorter, dirty, leaves, cached_groups, active);
        let plans = crate::renderer::composite_plan::planned_all(
            nodes,
            dirty,
            leaves,
            cached_groups,
            active,
        );
        assert forall|i: int| 0 <= i < nodes.len() implies #[trigger] plans[i]
            == crate::renderer::composite_plan::planned(
            nodes[i],
            dirty,
            leaves,
            cached_groups,
            active,
        ) by {
            if i < nodes.len() - 1 {
                assert(plans[i] == crate::renderer::composite_plan::planned_all(
                    shorter,
                    dirty,
                    leaves,
                    cached_groups,
                    active,
                )[i]);
                assert(shorter[i] == nodes[i]);
            }
        }
    }
}

/// The pixel lies in the rectangle.
pub open spec fn is_within(rect: DirtyRect, x: int, y: int) -> bool {
    rect.min_x <= x < rect.max_x && rect.min_y <= y < rect.max_y
}

/// A pixel of a layer is marked: the layer is in full, or a rectangle of it holds the
/// pixel.
pub open spec fn is_marked(marks: DirtyModel, layer_id: u64, x: int, y: int) -> bool {
    ||| marks.masks.dom().contains(layer_id) && marks.masks[layer_id] is Full
    ||| marks.rects.dom().contains(layer_id) && marks.rects[layer_id] is Full
    ||| marks.rects.dom().contains(layer_id) && (marks.rects[layer_id] matches RectMaskModel::Rects(
        rects,
    ) && exists|i: int| 0 <= i < rects.len() && is_within(#[trigger] rects[i], x, y))
}

/// Marking a rectangle of a layer marks exactly its pixels besides those that were, and
/// marking a layer in full marks all of its pixels. Other layers, and the document,
/// stay as they are.
pub proof fn lemma_marks_are_made(
    marks: DirtyModel,
    layer_id: u64,
    rect: DirtyRect,
    other: u64,
    x: int,
    y: int,
)
    requires
        other != layer_id,
    ensures
        is_marked(marks.with_rect(layer_id, rect), layer_id, x, y) <==> is_marked(
            marks,
            layer_id,
            x,
            y,
        ) || is_within(rect, x, y),
        is_marked(marks.with_full(layer_id), layer_id, x, y),
        is_marked(marks.with_rect(layer_id, rect), other, x, y) == is_marked(marks, other, x, y),
        is_marked(marks.with_full(layer_id), other, x, y) == is_marked(marks, other, x, y),
        marks.with_rect(layer_id, rect).document_composite_dirty == marks.document_composite_dirty,
        marks.with_full(layer_id).document_composite_dirty == marks.document_composite_dirty,
{
    let after = marks.with_rect(layer_id, rect);
    if marks.takes(layer_id, rect) {
        let rects = marks.rects_of(layer_id);
        let more = rects.push(rect);
        assert(more[rects.len() as int] == rect);
        if exists|i: int| 0 <= i < rects.len() && is_within(#[trigger] rects[i], x, y) {
            let i = choose|i: int| 0 <= i < rects.len() && is_within(#[trigger] rects[i], x, y);
            assert(is_within(more[i], x, y));
        }
        if exists|i: int| 0 <= i < more.len() && is_within(#[trigger] more[i], x, y) {
            let i = choose|i: int| 0 <= i < more.len() && is_within(#[trigger] more[i], x, y);
            if i < rects.len() {
                assert(is_within(rects[i], x, y));
            }
        }
        assert(is_within(rect, x, y) ==> is_within(more[rects.len() as int], x, y));
        assert(after.rects[layer_id] == RectMaskModel::Rects(more));
        assert(is_marked(marks, layer_id, x, y) <==> exists|i: int|
            0 <= i < rects.len() && is_within(#[trigger] rects[i], x, y));
        let stored = after.rects[layer_id]->Rects_0;
        assert(stored == more);
        assert(!marks.full(layer_id));
        assert(after.masks == marks.masks);
        if exists|i: int| 0 <= i < more.len() && is_within(#[trigger] more[i], x, y) {
            let i = choose|i: int| 0 <= i < more.len() && is_within(#[trigger] more[i], x, y);
            assert(is_within(stored[i], x, y));
            assert(is_marked(after, layer_id, x, y));
        }
        if is_marked(after, layer_id, x, y) {
            assert(after.rects[layer_id] !is Full);
            let i = choose|i: int| 0 <= i < stored.len() && is_within(#[trigger] stored[i], x, y);
            assert(is_within(more[i], x, y));
        }
    }
}

/// Keeping some layers alone keeps their marks and forgets all others.
pub proof fn lemma_marks_of_live_layers_stay(
    marks: DirtyModel,
    live: Set<u64>,
    layer_id: u64,
    x: int,
    y: int,
)
    ensures
        is_marked(marks.retained(live), layer_id, x, y) <==> is_marked(marks, layer_id, x, y)
            && live.contains(layer_id),
        marks.retained(live).document_composite_dirty == marks.document_composite_dirty,
{
}

/// The dirty area of a layer is all of it if it is marked in full, and otherwise what
/// the document makes of the rectangles that are marked; without any there is none.
pub proof fn lemma_dirty_area_of_a_layer<R: RenderDataResolver>(
    marks: DirtyModel,
    resolver: &R,
    layer_id: u64,
)
    ensures
        ({
            let whole = (marks.masks.dom().contains(layer_id) && marks.masks[layer_id] is Full)
                || (marks.rects.dom().contains(layer_id) && marks.rects[layer_id] is Full);
            match marks.resolved_area(resolver, layer_id) {
                Some(RectMaskModel::Full) => whole,
                Some(RectMaskModel::Rects(area)) => !whole && marks.rects.dom().contains(layer_id)
                    && area.len() > 0 && (
                marks.rects[layer_id] matches RectMaskModel::Rects(rects) && area
                    == resolver.propagated(layer_id, rects)),
                None => !whole && (marks.rects.dom().contains(layer_id) ==> (
                marks.rects[layer_id] matches RectMaskModel::Rects(rects) && resolver.propagated(
                    layer_id,
                    rects,
                ).len() == 0)),
            }
        }),
{
}

/// Taking in the tiles that have changed in a layer marks exactly their pixels besides
/// those that were marked, if the tiles are all within reach of a rectangle.
pub proof fn lemma_changed_tiles_are_marked(
    marks: DirtyModel,
    layer_id: u64,
    tiles: Seq<TileCoord>,
    other: u64,
    x: int,
    y: int,
)
    requires
        other != layer_id,
        x >= 0,
        y >= 0,
        forall|i: int|
            0 <= i < tiles.len() ==> ((#[trigger] tiles[i]).tile_x + 1) * 126 <= i32::MAX && (
            tiles[i].tile_y + 1) * 126 <= i32::MAX,
    ensures
        ({
            let after = crate::renderer::frame::with_tile_rects(marks, layer_id, tiles);
            &&& is_marked(after, layer_id, x, y) <==> is_marked(marks, layer_id, x, y) || exists|
                i: int,
            |
                0 <= i < tiles.len() && (#[trigger] tiles[i]).tile_x == x / 126 && tiles[i].tile_y
                    == y / 126
            &&& is_marked(after, other, x, y) == is_marked(marks, other, x, y)
            &&& after.document_composite_dirty == marks.document_composite_dirty
        }),
    decreases tiles.len(),
{
    if tiles.len() > 0 {
        let shorter = tiles.drop_last();
        let last = tiles.last();
        assert forall|i: int| 0 <= i < shorter.len() implies ((#[trigger] shorter[i]).tile_x + 1)
            * 126 <= i32::MAX && (shorter[i].tile_y + 1) * 126 <= i32::MAX by {
            assert(shorter[i] == tiles[i]);
        }
        assert(tiles[tiles.len() - 1] == last);
        lemma_changed_tiles_are_marked(marks, layer_id, shorter, other, x, y);
        let inner = crate::renderer::frame::with_tile_rects(marks, layer_id, shorter);
        let rect = crate::renderer::frame::tile_rect(last);
        lemma_marks_are_made(inner, layer_id, rect, other, x, y);
        crate::renderer::frame::lemma_tile_rect_holds_its_tile(last, x, y);
        assert(is_within(rect, x, y) == rect.holds(x, y));
        if exists|i: int|
            0 <= i < shorter.len() && (#[trigger] shorter[i]).tile_x == x / 126
                && shorter[i].tile_y == y / 126 {
            let i = choose|i: int|
                0 <= i < shorter.len() && (#[trigger] shorter[i]).tile_x == x / 126
                    && shorter[i].tile_y == y / 126;
            assert(tiles[i] == shorter[i]);
        }
        if exists|i: int|
            0 <= i < tiles.len() && (#[trigger] tiles[i]).tile_x == x / 126 && tiles[i].tile_y == y
                / 126 {
            let i = choose|i: int|
                0 <= i < tiles.len() && (#[trigger] tiles[i]).tile_x == x / 126 && tiles[i].tile_y
                    == y / 126;
            if i < shorter.len() {
                assert(shorter[i] == tiles[i]);
            }
        }
    }
}

/// What the document says of a layer is taken in: nothing where it is up to date or not
/// known, all of the layer where the changes are not known one by one, and else the
/// changed tiles; and the next time it is asked from the version that it was told.
pub proof fn lemma_history_is_taken_in<R: RenderDataResolver>(
    resolver: &R,
    marks: DirtyModel,
    layer_id: u64,
    since: u64,
    x: int,
    y: int,
)
    requires
        x >= 0,
        y >= 0,
        resolver.dirty_since(layer_id, since) matches Some(
            DirtySinceModel::TilesSince { tiles, .. },
        ) ==> forall|i: int|
            0 <= i < tiles.len() ==> ((#[trigger] tiles[i]).tile_x + 1) * 126 <= i32::MAX && (
            tiles[i].tile_y + 1) * 126 <= i32::MAX,
    ensures
        ({
            let changes = resolver.dirty_since(layer_id, since);
            let after = crate::renderer::frame::history_marked(marks, layer_id, changes);
            let version = crate::renderer::frame::history_version(resolver, layer_id, since);
            match changes {
                None | Some(DirtySinceModel::UpToDate) => after == marks && version == since,
                Some(DirtySinceModel::HistoryTruncated) => is_marked(after, layer_id, x, y) && (
                if resolver.version_of(layer_id) is Some {
                    version == resolver.version_of(layer_id)->0
                } else {
                    version == since
                }),
                Some(DirtySinceModel::AllSince { latest_version }) => is_marked(
                    after,
                    layer_id,
                    x,
                    y,
                ) && version == latest_version,
                Some(DirtySinceModel::TilesSince { latest_version, tiles }) => version
                    == latest_version && (is_marked(after, layer_id, x, y) <==> is_marked(
                    marks,
                    layer_id,
                    x,
                    y,
                ) || exists|i: int|
                    0 <= i < tiles.len() && (#[trigger] tiles[i]).tile_x == x / 126
                        && tiles[i].tile_y == y / 126),
            }
        }),
{
    let other: u64 = if layer_id == 0 {
        1
    } else {
        0
    };
    match resolver.dirty_since(layer_id, since) {
        Some(DirtySinceModel::TilesSince { tiles, .. }) => {
            lemma_changed_tiles_are_marked(marks, layer_id, tiles, other, x, y);
        },
        _ => {
            lemma_marks_are_made(
                marks,
                layer_id,
                DirtyRect { min_x: 0, min_y: 0, max_x: 0, max_y: 0 },
                other,
                x,
                y,
            );
        },
    }
}

/// Some rectangle holds a pixel of the tile.
pub open spec fn is_touched(rects: Seq<DirtyRect>, tile: TileCoord) -> bool {
    exists|i: int, x: int, y: int|
        0 <= i < rects.len() && #[trigger] is_within(rects[i], x, y) && x >= 0 && y >= 0 && x / 126
            == tile.tile_x && y / 126 == tile.tile_y
}

/// The dirty tiles of a node are those that a rectangle of its dirty area holds a pixel
/// of; all of them if the area is all, or if the node is a group of which two tiles out
/// of five are dirty. A node without a dirty tile is not dirty.
pub proof fn lemma_dirty_tiles_of_a_node(
    key: RenderNodeKey,
    rects: Seq<DirtyRect>,
    group_tiles: nat,
    tile: TileCoord,
)
    ensures
        crate::renderer::dirty::node_tiles(key, RectMaskModel::Full, group_tiles) == Some(
            TileMaskModel::Full,
        ),
        match crate::renderer::dirty::node_tiles(key, RectMaskModel::Rects(rects), group_tiles) {
            None => !is_touched(rects, tile),
            Some(TileMaskModel::Full) => key is Group && 5
                * crate::renderer::dirty::rects_tiles(rects).len() >= 2 * group_tiles,
            Some(TileMaskModel::Partial(tiles)) => (tiles.contains(tile) <==> is_touched(
                rects,
                tile,
            )) && (key is Group ==> 5 * tiles.len() < 2 * group_tiles),
        },
{
    let tiles = crate::renderer::dirty::rects_tiles(rects);
    assert(tiles.contains(tile) == is_touched(rects, tile)) by {
        if tiles.contains(tile) {
            let i = choose|i: int|
                0 <= i < rects.len() && crate::renderer::dirty::tile_meets_rect(
                    #[trigger] rects[i],
                    tile,
                );
            let (x, y) = choose|x: int, y: int| #[trigger]
                rects[i].holds(x, y) && x >= 0 && y >= 0 && x / 126 == tile.tile_x && y / 126
                    == tile.tile_y;
            assert(is_within(rects[i], x, y));
        }
        if is_touched(rects, tile) {
            let (i, x, y) = choose|i: int, x: int, y: int|
                0 <= i < rects.len() && #[trigger] is_within(rects[i], x, y) && x >= 0 && y >= 0
                    && x / 126 == tile.tile_x && y / 126 == tile.tile_y;
            assert(rects[i].holds(x, y));
            assert(crate::renderer::dirty::tile_meets_rect(rects[i], tile));
        }
    }
}

/// The area of a node has exactly the rectangles of its layers, if none of them is
/// dirty in full.
pub proof fn lemma_area_of_a_node_is_that_of_its_layers(
    node: RenderNodeSnapshot,
    layers: Map<u64, RectMaskModel>,
    rect: DirtyRect,
)
    ensures
        crate::renderer::render_tree::node_area(node, layers) matches Some(
            RectMaskModel::Rects(rects),
        ) ==> (rects.contains(rect) <==> exists|layer: u64|
            crate::renderer::render_tree::has_layer(node, layer)
                && #[trigger] layers.dom().contains(layer) && (
            layers[layer] matches RectMaskModel::Rects(own) && own.contains(rect))),
    decreases node,
{
    match node {
        RenderNodeSnapshot::Leaf { layer_id, .. } => {
            assert(crate::renderer::render_tree::has_layer(node, layer_id));
        },
        RenderNodeSnapshot::Group { children, .. } => {
            lemma_area_of_nodes_is_that_of_their_layers(children@, layers, rect);
            assert forall|layer: u64| crate::renderer::render_tree::has_layer(node, layer)
                == crate::renderer::render_tree::any_has_layer(children@, layer) by {}
        },
    }
}

/// As `lemma_area_of_a_node_is_that_of_its_layers`, for several nodes together.
pub proof fn lemma_area_of_nodes_is_that_of_their_layers(
    nodes: Seq<RenderNodeSnapshot>,
    layers: Map<u64, RectMaskModel>,
    rect: DirtyRect,
)
    ensures
        crate::renderer::render_tree::nodes_area(nodes, layers) matches Some(
            RectMaskModel::Rects(rects),
        ) ==> (rects.contains(rect) <==> exists|layer: u64|
            crate::renderer::render_tree::any_has_layer(nodes, layer)
                && #[trigger] layers.dom().contains(layer) && (
            layers[layer] matches RectMaskModel::Rects(own) && own.contains(rect))),
    decreases nodes,
{
    if nodes.len() > 0 {
        let shorter = nodes.drop_last();
        let last = nodes.last();
        lemma_area_of_nodes_is_that_of_their_layers(shorter, layers, rect);
        lemma_area_of_a_node_is_that_of_its_layers(last, layers, rect);
        crate::renderer::render_tree::lemma_nodes_are_dirty_with_their_layers(shorter, layers);
        crate::renderer::render_tree::lemma_node_is_dirty_with_its_layers(last, layers);
        assert forall|layer: u64| crate::renderer::render_tree::any_has_layer(nodes, layer) == (
        crate::renderer::render_tree::any_has_layer(shorter, layer)
            || crate::renderer::render_tree::has_layer(last, layer)) by {}
        if let Some(RectMaskModel::Rects(rects)) = crate::renderer::render_tree::nodes_area(
            nodes,
            layers,
        ) {
            let left = crate::renderer::render_tree::nodes_area(shorter, layers);
            let right = crate::renderer::render_tree::node_area(last, layers);
            if left is Some && right is Some {
                let a = left->0->Rects_0;
                let b = right->0->Rects_0;
                assert(rects == a + b);
                assert(rects.contains(rect) <==> a.contains(rect) || b.contains(rect)) by {
                    if a.contains(rect) {
                        assert((a + b)[a.index_of(rect)] == rect);
                    }
                    if b.contains(rect) {
                        assert((a + b)[a.len() + b.index_of(rect)] == rect);
                    }
                    if rects.contains(rect) {
                        let i = rects.index_of(rect);
                        if i < a.len() {
                            assert(a[i] == rect);
                        } else {
                            assert(b[i - a.len()] == rect);
                        }
                    }
                }
            }
            if exists|layer: u64|
                crate::renderer::render_tree::any_has_layer(shorter, layer)
                    && #[trigger] layers.dom().contains(layer) && (
                layers[layer] matches RectMaskModel::Rects(own) && own.contains(rect)) {
                let layer = choose|layer: u64|
                    crate::renderer::render_tree::any_has_layer(shorter, layer)
                        && #[trigger] layers.dom().contains(layer) && (
                    layers[layer] matches RectMaskModel::Rects(own) && own.contains(rect));
                assert(crate::renderer::render_tree::any_has_layer(nodes, layer)
                    && layers.dom().contains(layer));
            }
            if exists|layer: u64|
                crate::renderer::render_tree::has_layer(last, layer)
                    && #[trigger] layers.dom().contains(layer) && (
                layers[layer] matches RectMaskModel::Rects(own) && own.contains(rect)) {
                let layer = choose|layer: u64|
                    crate::renderer::render_tree::has_layer(last, layer)
                        && #[trigger] layers.dom().contains(layer) && (
                    layers[layer] matches RectMaskModel::Rects(own) && own.contains(rect));
                assert(crate::renderer::render_tree::any_has_layer(nodes, layer)
                    && layers.dom().contains(layer));
            }
        }
    }
}

/// A leaf of a tree is filed as dirty exactly if its layer is dirty, with the area of
/// its layer; what was filed of other layers stays.
pub proof fn lemma_dirty_leaves_are_filed(
    node: RenderNodeSnapshot,
    layers: Map<u64, RectMaskModel>,
    filed: Map<RenderNodeKey, RectMaskModel>,
    layer: u64,
)
    ensures
        ({
            let after = crate::renderer::render_tree::file_areas(node, layers, filed);
            let key = RenderNodeKey::Leaf(layer);
            if crate::renderer::render_tree::has_layer(node, layer) && layers.dom().contains(
                layer,
            ) {
                after.dom().contains(key) && after[key] == layers[layer]
            } else {
                after.dom().contains(key) == filed.dom().contains(key) && after[key] == filed[key]
            }
        }),
    decreases node,
{
    if let RenderNodeSnapshot::Group { children, .. } = node {
        lemma_dirty_leaves_of_all_are_filed(children@, layers, filed, layer);
    }
}

/// As `lemma_dirty_leaves_are_filed`, for several trees.
pub proof fn lemma_dirty_leaves_of_all_are_filed(
    nodes: Seq<RenderNodeSnapshot>,
    layers: Map<u64, RectMaskModel>,
    filed: Map<RenderNodeKey, RectMaskModel>,
    layer: u64,
)
    ensures
        ({
            let after = crate::renderer::render_tree::file_all_areas(nodes, layers, filed);
            let key = RenderNodeKey::Leaf(layer);
            if crate::renderer::render_tree::any_has_layer(nodes, layer) && layers.dom().contains(
                layer,
            ) {
                after.dom().contains(key) && after[key] == layers[layer]
            } else {
                after.dom().contains(key) == filed.dom().contains(key) && after[key] == filed[key]
            }
        }),
    decreases nodes,
{
    if nodes.len() > 0 {
        let inner = crate::renderer::render_tree::file_all_areas(
            nodes.drop_last(),
            layers,
            filed,
        );
        lemma_dirty_leaves_of_all_are_filed(nodes.drop_last(), layers, filed, layer);
        lemma_dirty_leaves_are_filed(nodes.last(), layers, inner, layer);
    }
}

/// The group is that of the node or of one below it, and has this area.
pub open spec fn has_group_with_area(
    node: RenderNodeSnapshot,
    layers: Map<u64, RectMaskModel>,
    group: u64,
    area: RectMaskModel,
) -> bool
    decreases node,
{
    match node {
        RenderNodeSnapshot::Leaf { .. } => false,
        RenderNodeSnapshot::Group { group_id, children, .. } => (group_id == group
            && crate::renderer::render_tree::node_area(node, layers) == Some(area))
            || any_has_group_with_area(children@, layers, group, area),
    }
}

/// As `has_group_with_area`, for one of several nodes.
pub open spec fn any_has_group_with_area(
    nodes: Seq<RenderNodeSnapshot>,
    layers: Map<u64, RectMaskModel>,
    group: u64,
    area: RectMaskModel,
) -> bool
    decreases nodes,
{
    nodes.len() > 0 && (any_has_group_with_area(nodes.drop_last(), layers, group, area)
        || has_group_with_area(nodes.last(), layers, group, area))
}

/// Every dirty group of a tree is filed, and what is filed under a group is the area of
/// a group of that name, or was filed before.
pub proof fn lemma_dirty_groups_are_filed(
    node: RenderNodeSnapshot,
    layers: Map<u64, RectMaskModel>,
    filed: Map<RenderNodeKey, RectMaskModel>,
    group: u64,
    area: RectMaskModel,
)
    ensures
        ({
            let after = crate::renderer::render_tree::file_areas(node, layers, filed);
            let key = RenderNodeKey::Group(group);
            &&& has_group_with_area(node, layers, group, area) ==> after.dom().contains(key)
            &&& filed.dom().contains(key) ==> after.dom().contains(key)
            &&& after.dom().contains(key) && after[key] == area ==> has_group_with_area(
                node,
                layers,
                group,
                area,
            ) || (filed.dom().contains(key) && filed[key] == area)
        }),
    decreases node,
{
    if let RenderNodeSnapshot::Group { children, .. } = node {
        lemma_dirty_groups_of_all_are_filed(children@, layers, filed, group, area);
    }
}

/// As `lemma_dirty_groups_are_filed`, for several trees.
pub proof fn lemma_dirty_groups_of_all_are_filed(
    nodes: Seq<RenderNodeSnapshot>,
    layers: Map<u64, RectMaskModel>,
    filed: Map<RenderNodeKey, RectMaskModel>,
    group: u64,
    area: RectMaskModel,
)
    ensures
        ({
            let after = crate::renderer::render_tree::file_all_areas(nodes, layers, filed);
            let key = RenderNodeKey::Group(group);
            &&& any_has_group_with_area(nodes, layers, group, area) ==> after.dom().contains(key)
            &&& filed.dom().contains(key) ==> after.dom().contains(key)
            &&& after.dom().contains(key) && after[key] == area ==> any_has_group_with_area(
                nodes,
                layers,
                group,
                area,
            ) || (filed.dom().contains(key) && filed[key] == area)
        }),
    decreases nodes,
{
    if nodes.len() > 0 {
        let inner = crate::renderer::render_tree::file_all_areas(
            nodes.drop_last(),
            layers,
            filed,
        );
        lemma_dirty_groups_of_all_are_filed(nodes.drop_last(), layers, filed, group, area);
        lemma_dirty_groups_are_filed(nodes.last(), layers, inner, group, area);
    }
}

/// What a frame takes to be dirty. Where every group is rendered anew, or without a
/// tree, it is the layers that are dirty in full; otherwise these, and the leaves and
/// groups of the tree with their dirty tiles, the tree's own saying first.
pub proof fn lemma_dirty_plan_of_a_frame(
    tree: Option<RenderNodeSnapshot>,
    areas: Map<u64, RectMaskModel>,
    force: bool,
    group_tiles: nat,
    id: u64,
)
    ensures
        ({
            let plan = crate::renderer::frame::dirty_planned(tree, areas, force, group_tiles);
            let whole = areas.dom().contains(id) && areas[id] is Full;
            &&& plan.force_group_rerender == force
            &&& tree is None || force ==> {
                &&& plan.leaves.dom().contains(id) <==> whole
                &&& whole ==> plan.leaves[id] is Full
                &&& !plan.groups.dom().contains(id)
            }
            &&& !(tree is None || force) ==> {
                let filed = crate::renderer::render_tree::file_areas(
                    tree->0,
                    areas,
                    Map::empty(),
                );
                let leaf = RenderNodeKey::Leaf(id);
                let group = RenderNodeKey::Group(id);
                let leaf_tiles = crate::renderer::dirty::node_tiles(
                    leaf,
                    areas[id],
                    group_tiles,
                );
                let listed = crate::renderer::render_tree::has_layer(tree->0, id)
                    && areas.dom().contains(id) && leaf_tiles is Some;
                &&& plan.leaves.dom().contains(id) <==> whole || listed
                &&& listed ==> plan.leaves[id] == leaf_tiles->0
                &&& !listed && whole ==> plan.leaves[id] is Full
                &&& plan.groups.dom().contains(id) <==> filed.dom().contains(group)
                    && crate::renderer::dirty::node_tiles(
                    group,
                    filed[group],
                    group_tiles,
                ) is Some
                &&& plan.groups.dom().contains(id) ==> Some(plan.groups[id])
                    == crate::renderer::dirty::node_tiles(group, filed[group], group_tiles)
            }
        }),
{
    if tree is Some && !force {
        lemma_dirty_leaves_are_filed(tree->0, areas, Map::empty(), id);
        let filed = crate::renderer::dirty::DirtyPropagationEngine::areas(tree->0, areas);
        assert(filed == crate::renderer::render_tree::file_areas(tree->0, areas, Map::empty()));
    }
}

/// The counts of plans add up: those of several plans are those of the first and of the
/// others together, those of a group are its own and those of its children, and a node
/// counts once as what it is.
pub proof fn lemma_counts_of_plans_add_up(first: Seq<PlanModel>, more: Seq<PlanModel>)
    ensures
        crate::renderer::plan_stats::all_counts(first + more).leaf_nodes
            == crate::renderer::plan_stats::all_counts(first).leaf_nodes
            + crate::renderer::plan_stats::all_counts(more).leaf_nodes,
        crate::renderer::plan_stats::all_counts(first + more).rebuilt_leaf_nodes
            == crate::renderer::plan_stats::all_counts(first).rebuilt_leaf_nodes
            + crate::renderer::plan_stats::all_counts(more).rebuilt_leaf_nodes,
        crate::renderer::plan_stats::all_counts(first + more).rebuilt_leaf_partial_tiles
            == crate::renderer::plan_stats::all_counts(first).rebuilt_leaf_partial_tiles
            + crate::renderer::plan_stats::all_counts(more).rebuilt_leaf_partial_tiles,
        crate::renderer::plan_stats::all_counts(first + more).rebuilt_leaf_unknown_tiles
            == crate::renderer::plan_stats::all_counts(first).rebuilt_leaf_unknown_tiles
            + crate::renderer::plan_stats::all_counts(more).rebuilt_leaf_unknown_tiles,
        crate::renderer::plan_stats::all_counts(first + more).group_nodes
            == crate::renderer::plan_stats::all_counts(first).group_nodes
            + crate::renderer::plan_stats::all_counts(more).group_nodes,
        crate::renderer::plan_stats::all_counts(first + more).rerender_group_nodes
            == crate::renderer::plan_stats::all_counts(first).rerender_group_nodes
            + crate::renderer::plan_stats::all_counts(more).rerender_group_nodes,
        crate::renderer::plan_stats::all_counts(first + more).rerender_group_tiles
            == crate::renderer::plan_stats::all_counts(first).rerender_group_tiles
            + crate::renderer::plan_stats::all_counts(more).rerender_group_tiles,
        crate::renderer::plan_stats::all_counts(first + more).cache_group_nodes
            == crate::renderer::plan_stats::all_counts(first).cache_group_nodes
            + crate::renderer::plan_stats::all_counts(more).cache_group_nodes,
    decreases more.len(),
{
    if more.len() == 0 {
        assert(first + more =~= first);
    } else {
        assert((first + more).drop_last() =~= first + more.drop_last());
        lemma_counts_of_plans_add_up(first, more.drop_last());
    }
}

/// What a single node counts for: a leaf once as a leaf, once more as rebuilt if it is,
/// and then with its dirty tiles or as one whose tiles are not known; a group once as a
/// group and once as what becomes of it, with the tiles that are rendered anew. A group
/// counts its children besides.
pub proof fn lemma_counts_of_a_node(plan: PlanModel)
    ensures
        ({
            let own = crate::renderer::plan_stats::plan_counts(plan);
            match plan {
                PlanModel::Leaf { should_rebuild, dirty_tiles, .. } => {
                    &&& own.leaf_nodes == 1
                    &&& own.rebuilt_leaf_nodes == if should_rebuild {
                        1int
                    } else {
                        0
                    }
                    &&& (dirty_tiles matches Some(TileMaskModel::Partial(tiles))
                        ==> own.rebuilt_leaf_unknown_tiles == 0 && own.rebuilt_leaf_partial_tiles
                        == if should_rebuild {
                        tiles.len() as int
                    } else {
                        0
                    })
                    &&& (!(dirty_tiles is Some && dirty_tiles->0 is Partial)
                        ==> own.rebuilt_leaf_partial_tiles == 0 && own.rebuilt_leaf_unknown_tiles
                        == own.rebuilt_leaf_nodes)
                    &&& own.group_nodes == 0
                    &&& own.rerender_group_nodes == 0
                    &&& own.rerender_group_tiles == 0
                    &&& own.cache_group_nodes == 0
                },
                PlanModel::Group { decision, children, .. } => {
                    let below = crate::renderer::plan_stats::all_counts(children);
                    &&& own.leaf_nodes == below.leaf_nodes
                    &&& own.rebuilt_leaf_nodes == below.rebuilt_leaf_nodes
                    &&& own.rebuilt_leaf_partial_tiles == below.rebuilt_leaf_partial_tiles
                    &&& own.rebuilt_leaf_unknown_tiles == below.rebuilt_leaf_unknown_tiles
                    &&& own.group_nodes == below.group_nodes + 1
                    &&& own.rerender_group_nodes + own.cache_group_nodes
                        == below.rerender_group_nodes + below.cache_group_nodes + 1
                    &&& decision.mode is Rerender ==> own.rerender_group_nodes
                        == below.rerender_group_nodes + 1
                    &&& decision.mode is UseCache ==> own.cache_group_nodes
                        == below.cache_group_nodes + 1
                    &&& own.rerender_group_tiles == below.rerender_group_tiles + if decision.mode
                        is Rerender && decision.tiles is Some {
                        decision.tiles->0.len() as int
                    } else {
                        0
                    }
                },
            }
        }),
        crate::renderer::plan_stats::all_counts(Seq::<PlanModel>::empty()) == PlanCounts::zero(),
{
}

/// A frame is planned for its tree as a whole, with what is dirty of it and with what is
/// cached. A group has as many tiles as cover the document, each of them 126 pixels
/// across.
pub proof fn lemma_frame_is_planned_for_its_tree<R: RenderDataResolver>(
    resolver: &R,
    tree: RenderNodeSnapshot,
    marks: DirtyModel,
    cache: CacheState,
    areas: Map<u64, RectMaskModel>,
    columns: nat,
    rows: nat,
)
    requires
        (columns - 1) * 126 < resolver.size().0 <= columns * 126,
        (rows - 1) * 126 < resolver.size().1 <= rows * 126,
        resolver.size().0 > 0,
        resolver.size().1 > 0,
        forall|layer_id: u64| #[trigger]
            areas.dom().contains(layer_id) <==> marks.resolved_area(resolver, layer_id) is Some,
        forall|layer_id: u64| #[trigger]
            areas.dom().contains(layer_id) ==> marks.resolved_area(resolver, layer_id) == Some(
                areas[layer_id],
            ),
    ensures
        crate::renderer::frame::frame_composite(resolver, None, marks, cache) is None,
        crate::renderer::frame::frame_composite(resolver, Some(tree), marks, cache) == Some(
            crate::renderer::composite_plan::planned(
                tree,
                crate::renderer::frame::dirty_planned(
                    Some(tree),
                    areas,
                    marks.document_composite_dirty,
                    columns * rows,
                ),
                crate::collections::viewed(cache.leaf_draw_cache@),
                cache.group_target_cache@.dom(),
                None,
            ),
        ),
{
    let grid = crate::renderer::geometry::group_grid(resolver.size().0, resolver.size().1);
    assert(grid.0 == columns && grid.1 == rows);
    assert(crate::renderer::frame::resolved_areas(marks, resolver) =~= areas);
}

/// The dirty tiles of the leaves of a tree take the place of those that were there for
/// their layers, and those of its groups of those that were there for them. All others
/// stay.
pub proof fn lemma_tiles_of_nodes_come_first(
    base: Map<u64, TileMaskModel>,
    nodes: Map<RenderNodeKey, TileMaskModel>,
    id: u64,
)
    ensures
        ({
            let leaves = crate::renderer::frame::leaf_masks(base, nodes);
            let groups = crate::renderer::frame::group_masks(base, nodes);
            let leaf = RenderNodeKey::Leaf(id);
            let group = RenderNodeKey::Group(id);
            &&& nodes.dom().contains(leaf) ==> leaves.dom().contains(id) && leaves[id]
                == nodes[leaf]
            &&& !nodes.dom().contains(leaf) ==> leaves.dom().contains(id) == base.dom().contains(id)
            &&& !nodes.dom().contains(leaf) && base.dom().contains(id) ==> leaves[id] == base[id]
            &&& nodes.dom().contains(group) ==> groups.dom().contains(id) && groups[id]
                == nodes[group]
            &&& !nodes.dom().contains(group) ==> groups.dom().contains(id)
                == base.dom().contains(id)
            &&& !nodes.dom().contains(group) && base.dom().contains(id) ==> groups[id] == base[id]
        }),
{
}

} // verus!
