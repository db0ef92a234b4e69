use std::cell::Cell;
use std::collections::{HashMap, HashSet, VecDeque};
use std::sync::Arc;

use glaphica::collections::{KeyMap, KeySet};
use glaphica::render_protocol::{
    BlendMode, BrushDabChunkF32, BrushProgramKey, BrushRenderCommand, ImageHandle,
    RenderNodeSnapshot, RenderTreeSnapshot,
};
use glaphica::renderer::brush::BrushWorkState;
use glaphica::renderer::brush_dabs::brush_dab_write_region_in_slot;
use glaphica::renderer::dirty::{
    dirty_rect_to_tile_coords, DirtyPropagationEngine, DirtyRect, DirtyRectMask, DirtyStateStore,
    DirtyTileMask, RenderNodeKey, TileCoord,
};
use glaphica::renderer::draw_builders::{
    build_leaf_tile_draw_instances, build_leaf_tile_draw_instances_for_tiles,
    leaf_should_rebuild, CachedLeafDraw, TileDrawInstance, TileInstanceGpu,
};
use glaphica::renderer::frame::mark_dirty_from_tile_history;
use glaphica::renderer::geometry::{
    group_cache_extent_from_document_size, group_cache_slot_extent_from_document_size,
    group_tile_count, group_tile_grid_from_document_size,
};
use glaphica::renderer::planning::{
    rerender_tiles_for_group, FrameSync, GroupDecisionEngine, GroupRerenderMode,
};
use glaphica::renderer::render_tree::{collect_node_dirty_rects, RenderTreeNode};
use glaphica::renderer::resolver::{
    DirtySinceResult, ImageSource, PlacedTile, RenderDataResolver, TileDirtyQuery, TileDirtySet,
};
use glaphica::renderer::state::FrameState;
use glaphica::scalar::FloatBits;
use glaphica::tiles::{
    TileAddress, TileAtlasLayout, TileKey, TILE_GUTTER, TILE_IMAGE, TILE_STRIDE,
};

fn image_handle() -> ImageHandle {
    ImageHandle::default()
}

fn layer_image() -> ImageSource {
    ImageSource::LayerImage {
        image_handle: image_handle(),
    }
}

fn leaf(layer_id: u64, blend: BlendMode) -> RenderTreeNode {
    RenderTreeNode::Leaf {
        layer_id,
        blend,
        image_handle: image_handle(),
    }
}

fn group(group_id: u64, blend: BlendMode, children: Vec<RenderTreeNode>) -> RenderTreeNode {
    RenderTreeNode::Group {
        group_id,
        blend,
        children: Arc::new(children),
    }
}

fn coord(tile_x: u32, tile_y: u32) -> TileCoord {
    TileCoord { tile_x, tile_y }
}

fn tile_set(coords: &[TileCoord]) -> KeySet<TileCoord> {
    let mut set = KeySet::new();
    for coord in coords {
        set.insert(*coord);
    }
    set
}

fn hashed(set: &KeySet<TileCoord>) -> HashSet<TileCoord> {
    set.to_vec().into_iter().collect()
}

fn masks(entries: Vec<(u64, DirtyRectMask)>) -> KeyMap<u64, DirtyRectMask> {
    let mut masks = KeyMap::new();
    for (layer_id, mask) in entries {
        masks.insert(layer_id, mask);
    }
    masks
}

fn instance_at(document_x: u32, document_y: u32) -> TileDrawInstance {
    TileDrawInstance {
        blend_mode: BlendMode::Normal,
        tile: TileInstanceGpu {
            document_x,
            document_y,
            atlas_layer: 0,
            tile_index: 0,
        },
    }
}

#[test]
fn frame_sync_rejects_commit_after_epoch_change() {
    let mut sync = FrameSync::default();
    let version = sync.version(4, 10);
    sync.note_state_change();
    assert!(!sync.can_commit(version, 10));
}

#[test]
fn frame_sync_rejects_commit_after_snapshot_change() {
    let sync = FrameSync::default();
    let version = sync.version(7, 20);
    assert!(!sync.can_commit(version, 21));
}

#[test]
fn frame_sync_rejects_non_monotonic_frame_id() {
    let mut sync = FrameSync::default();
    let version0 = sync.version(2, 9);
    sync.commit(version0, 9);
    let stale_version = sync.version(2, 9);
    assert!(!sync.can_commit(stale_version, 9));
}

#[test]
fn rerender_tiles_for_group_force_active_region_ignores_partial_dirty() {
    let partial_tiles = tile_set(&[coord(10, 10), coord(11, 11)]);
    let active_tiles = tile_set(&[coord(1, 2)]);

    let rerender_tiles = rerender_tiles_for_group(
        true,
        Some(&DirtyTileMask::Partial(partial_tiles)),
        Some(&active_tiles),
    )
    .expect("forced active region should keep active mask");

    assert_eq!(hashed(&rerender_tiles), hashed(&active_tiles));
}

#[test]
fn rerender_tiles_for_group_intersects_partial_with_active_tiles() {
    let dirty_tiles = tile_set(&[coord(1, 1), coord(2, 2)]);
    let active_tiles = tile_set(&[coord(2, 2), coord(3, 3)]);

    let rerender_tiles = rerender_tiles_for_group(
        false,
        Some(&DirtyTileMask::Partial(dirty_tiles)),
        Some(&active_tiles),
    )
    .expect("partial dirty should produce masked region");

    assert_eq!(hashed(&rerender_tiles), HashSet::from([coord(2, 2)]));
}

#[test]
fn group_decision_engine_uses_cache_when_group_is_clean() {
    let decision = GroupDecisionEngine::default().decide(false, false, None, None);
    assert_eq!(decision.mode, GroupRerenderMode::UseCache);
    assert!(decision.rerender_tiles.is_none());
}

#[test]
fn group_decision_engine_marks_group_for_rerender_when_dirty() {
    let dirty_tiles = tile_set(&[coord(4, 7)]);
    let decision = GroupDecisionEngine::default().decide(
        false,
        false,
        Some(&DirtyTileMask::Partial(dirty_tiles.duplicate())),
        None,
    );
    assert_eq!(decision.mode, GroupRerenderMode::Rerender);
    assert_eq!(
        decision.rerender_tiles.map(|tiles| hashed(&tiles)),
        Some(hashed(&dirty_tiles))
    );
}

#[test]
fn group_without_a_cache_is_rendered_anew_in_full() {
    let dirty = DirtyTileMask::Partial(tile_set(&[coord(0, 0)]));
    let decision = GroupDecisionEngine::default().decide(false, true, Some(&dirty), None);
    assert_eq!(decision.mode, GroupRerenderMode::Rerender);
    assert!(decision.rerender_tiles.is_none());
    let decision =
        GroupDecisionEngine::default().decide(false, false, Some(&DirtyTileMask::Full), None);
    assert_eq!(decision.mode, GroupRerenderMode::Rerender);
    assert!(decision.rerender_tiles.is_none());
}

#[test]
fn leaf_should_rebuild_when_dirty_even_with_cache_hit() {
    let cached_leaf = CachedLeafDraw {
        blend: BlendMode::Normal,
        image_source: layer_image(),
        draw_instances: vec![instance_at(0, 0)],
        tile_instance_index: KeyMap::new(),
    };
    let dirty_tiles = tile_set(&[coord(0, 0)]);
    assert!(leaf_should_rebuild(
        Some(&DirtyTileMask::Partial(dirty_tiles)),
        Some(&cached_leaf),
        BlendMode::Normal,
        cached_leaf.image_source,
    ));
}

#[test]
fn leaf_should_not_rebuild_when_cache_matches_and_clean() {
    let cached_leaf = CachedLeafDraw {
        blend: BlendMode::Normal,
        image_source: layer_image(),
        draw_instances: vec![instance_at(0, 0)],
        tile_instance_index: KeyMap::new(),
    };
    assert!(!leaf_should_rebuild(
        None,
        Some(&cached_leaf),
        BlendMode::Normal,
        cached_leaf.image_source,
    ));
    assert!(leaf_should_rebuild(
        None,
        Some(&cached_leaf),
        BlendMode::Multiply,
        cached_leaf.image_source,
    ));
    assert!(leaf_should_rebuild(
        None,
        None,
        BlendMode::Normal,
        cached_leaf.image_source,
    ));
}

#[test]
fn cached_leaf_partial_replace_keeps_index_consistent() {
    let mut cached_leaf = CachedLeafDraw {
        blend: BlendMode::Normal,
        image_source: layer_image(),
        draw_instances: vec![instance_at(0, 0), instance_at(TILE_IMAGE, 0)],
        tile_instance_index: KeyMap::new(),
    };
    cached_leaf.rebuild_tile_index();

    let dirty_tiles = tile_set(&[coord(0, 0)]);
    cached_leaf.replace_partial_tiles(&dirty_tiles);

    assert_eq!(cached_leaf.draw_instances.len(), 1);
    assert!(cached_leaf.tile_instance_index.contains_key(coord(1, 0)));
    assert_eq!(cached_leaf.tile_instance_index.len(), 1);
}

#[derive(Default)]
struct DirtyPropagationResolver {
    propagate_calls: Cell<u32>,
    propagated_rects: HashMap<u64, Vec<DirtyRect>>,
}

impl RenderDataResolver for DirtyPropagationResolver {
    fn document_size(&self) -> (u32, u32) {
        (TILE_IMAGE, TILE_IMAGE)
    }

    fn image_source_tiles(&self, _image_source: ImageSource) -> Vec<PlacedTile> {
        Vec::new()
    }

    fn image_source_tiles_for_coords(
        &self,
        _image_source: ImageSource,
        _coords: &KeySet<TileCoord>,
    ) -> Vec<PlacedTile> {
        Vec::new()
    }

    fn resolve_image_source_tile_address(
        &self,
        _image_source: ImageSource,
        _tile_key: TileKey,
    ) -> Option<TileAddress> {
        None
    }

    fn propagate_layer_dirty_rects(
        &self,
        layer_id: u64,
        incoming_rects: &Vec<DirtyRect>,
    ) -> Vec<DirtyRect> {
        self.propagate_calls.set(self.propagate_calls.get() + 1);
        self.propagated_rects
            .get(&layer_id)
            .cloned()
            .unwrap_or_else(|| incoming_rects.to_vec())
    }

    fn layer_dirty_since(&self, _layer_id: u64, _since_version: u64) -> Option<DirtySinceResult> {
        None
    }

    fn layer_version(&self, _layer_id: u64) -> Option<u64> {
        None
    }
}

#[test]
fn resolve_layer_dirty_rect_masks_uses_resolver_propagation_hook() {
    let mut dirty_state_store = DirtyStateStore::default();
    let _ = dirty_state_store.mark_layer_rect(
        9,
        DirtyRect {
            min_x: 0,
            min_y: 0,
            max_x: 1,
            max_y: 1,
        },
    );
    let resolver = DirtyPropagationResolver {
        propagated_rects: HashMap::from([(
            9,
            vec![DirtyRect {
                min_x: 0,
                min_y: 0,
                max_x: (TILE_IMAGE as i32) * 2,
                max_y: 1,
            }],
        )]),
        ..Default::default()
    };

    let layer_dirty_rect_masks = dirty_state_store.resolve_layer_dirty_rect_masks(&resolver);

    assert_eq!(resolver.propagate_calls.get(), 1);
    assert!(matches!(
        layer_dirty_rect_masks.get(9),
        Some(DirtyRectMask::Rects(rects)) if rects == &vec![DirtyRect {
            min_x: 0,
            min_y: 0,
            max_x: (TILE_IMAGE as i32) * 2,
            max_y: 1,
        }]
    ));
}

#[test]
fn resolve_layer_dirty_rect_masks_skips_propagation_for_full_layer_dirty() {
    let mut dirty_state_store = DirtyStateStore::default();
    dirty_state_store.mark_layer_full(3);
    let _ = dirty_state_store.mark_layer_rect(
        3,
        DirtyRect {
            min_x: 0,
            min_y: 0,
            max_x: 10,
            max_y: 10,
        },
    );
    let resolver = DirtyPropagationResolver::default();

    let layer_dirty_rect_masks = dirty_state_store.resolve_layer_dirty_rect_masks(&resolver);

    assert_eq!(resolver.propagate_calls.get(), 0);
    assert!(matches!(
        layer_dirty_rect_masks.get(3),
        Some(DirtyRectMask::Full)
    ));
}

#[derive(Default)]
struct FakeBrushBufferResolver {
    visit_calls: Cell<u32>,
    resolve_calls: Cell<u32>,
    brush_tile_key: Option<TileKey>,
}

impl RenderDataResolver for FakeBrushBufferResolver {
    fn document_size(&self) -> (u32, u32) {
        (TILE_IMAGE, TILE_IMAGE)
    }

    fn image_source_tiles(&self, image_source: ImageSource) -> Vec<PlacedTile> {
        self.visit_calls.set(self.visit_calls.get() + 1);
        match image_source {
            ImageSource::BrushBuffer { .. } => vec![PlacedTile {
                coord: coord(5, 7),
                key: self
                    .brush_tile_key
                    .expect("fake brush resolver requires brush tile key"),
            }],
            ImageSource::LayerImage { .. } => {
                panic!("fake brush resolver only supports brush buffer source");
            }
        }
    }

    fn image_source_tiles_for_coords(
        &self,
        image_source: ImageSource,
        coords: &KeySet<TileCoord>,
    ) -> Vec<PlacedTile> {
        let mut tiles = self.image_source_tiles(image_source);
        tiles.retain(|tile| coords.contains(tile.coord));
        tiles
    }

    fn resolve_image_source_tile_address(
        &self,
        image_source: ImageSource,
        tile_key: TileKey,
    ) -> Option<TileAddress> {
        self.resolve_calls.set(self.resolve_calls.get() + 1);
        match image_source {
            ImageSource::BrushBuffer { .. } => {
                if Some(tile_key) == self.brush_tile_key {
                    Some(TileAddress {
                        atlas_layer: 3,
                        tile_index: 11,
                    })
                } else {
                    None
                }
            }
            ImageSource::LayerImage { .. } => None,
        }
    }

    fn propagate_layer_dirty_rects(
        &self,
        _layer_id: u64,
        incoming_rects: &Vec<DirtyRect>,
    ) -> Vec<DirtyRect> {
        incoming_rects.to_vec()
    }

    fn layer_dirty_since(&self, _layer_id: u64, _since_version: u64) -> Option<DirtySinceResult> {
        None
    }

    fn layer_version(&self, _layer_id: u64) -> Option<u64> {
        None
    }
}

#[test]
fn build_leaf_tile_draw_instances_supports_brush_buffer_source() {
    let tile_key = TileKey::from_parts(0, 1, 2);
    let resolver = FakeBrushBufferResolver {
        brush_tile_key: Some(tile_key),
        ..Default::default()
    };
    let draw_instances = build_leaf_tile_draw_instances(
        BlendMode::Normal,
        ImageSource::BrushBuffer {
            stroke_session_id: 1,
        },
        &resolver,
    );
    assert_eq!(resolver.visit_calls.get(), 1);
    assert_eq!(resolver.resolve_calls.get(), 1);
    assert_eq!(draw_instances.len(), 1);
    assert_eq!(draw_instances[0].tile.document_x, 5 * TILE_IMAGE);
    assert_eq!(draw_instances[0].tile.document_y, 7 * TILE_IMAGE);
    assert_eq!(draw_instances[0].tile.atlas_layer, 3);
    assert_eq!(draw_instances[0].tile.tile_index, 11);
}

#[test]
fn partial_leaf_draw_builds_only_the_tiles_asked_for() {
    let resolver = FakeBrushBufferResolver {
        brush_tile_key: Some(TileKey::from_parts(0, 1, 2)),
        ..Default::default()
    };
    let source = ImageSource::BrushBuffer {
        stroke_session_id: 1,
    };
    let build = |coords: &[TileCoord]| {
        build_leaf_tile_draw_instances_for_tiles(
            BlendMode::Multiply,
            source,
            &resolver,
            &tile_set(coords),
        )
    };
    assert_eq!(build(&[coord(5, 7), coord(0, 0)]).len(), 1);
    assert_eq!(build(&[coord(5, 7)])[0].blend_mode, BlendMode::Multiply);
    assert!(build(&[coord(0, 0)]).is_empty());
    let visits = resolver.visit_calls.get();
    assert!(build(&[]).is_empty());
    assert_eq!(resolver.visit_calls.get(), visits);
}

fn render_tree_signature(node: &RenderTreeNode) -> String {
    match node {
        RenderTreeNode::Leaf {
            layer_id, blend, ..
        } => {
            format!("L({layer_id}:{blend:?})")
        }
        RenderTreeNode::Group {
            group_id: _,
            blend,
            children,
        } => {
            let children = children
                .iter()
                .map(render_tree_signature)
                .collect::<Vec<_>>()
                .join(",");
            format!("G({blend:?})[{children}]")
        }
    }
}

#[test]
fn render_tree_signature_reconstructs_nested_groups() {
    let tree = group(
        0,
        BlendMode::Normal,
        vec![
            group(
                99,
                BlendMode::Multiply,
                vec![leaf(11, BlendMode::Normal), leaf(12, BlendMode::Multiply)],
            ),
            leaf(13, BlendMode::Normal),
        ],
    );
    let signature = render_tree_signature(&tree);

    assert_eq!(
        signature,
        "G(Normal)[G(Multiply)[L(11:Normal),L(12:Multiply)],L(13:Normal)]"
    );
}

#[test]
fn collect_node_tile_masks_marks_ancestors_of_dirty_leaf_only() {
    let tree = group(
        0,
        BlendMode::Normal,
        vec![
            group(
                101,
                BlendMode::Normal,
                vec![leaf(11, BlendMode::Normal), leaf(12, BlendMode::Normal)],
            ),
            leaf(13, BlendMode::Normal),
        ],
    );
    let layer_dirty_rect_masks = masks(vec![(
        12u64,
        DirtyRectMask::Rects(vec![DirtyRect {
            min_x: TILE_IMAGE as i32,
            min_y: (2 * TILE_IMAGE) as i32,
            max_x: (TILE_IMAGE as i32) + 1,
            max_y: (2 * TILE_IMAGE) as i32 + 1,
        }]),
    )]);
    let dirty_nodes =
        DirtyPropagationEngine::new(16).collect_node_tile_masks(&tree, &layer_dirty_rect_masks);

    assert!(matches!(
        dirty_nodes.get(RenderNodeKey::Group(101)),
        Some(DirtyTileMask::Partial(_))
    ));
    assert!(matches!(
        dirty_nodes.get(RenderNodeKey::Group(0)),
        Some(DirtyTileMask::Partial(_))
    ));
    assert!(dirty_nodes.get(RenderNodeKey::Leaf(11)).is_none());
    assert!(dirty_nodes.get(RenderNodeKey::Leaf(13)).is_none());
}

#[test]
fn collect_node_tile_masks_promotes_group_to_full_at_threshold() {
    let tree = group(0, BlendMode::Normal, vec![leaf(1, BlendMode::Normal)]);
    let layer_dirty_rect_masks = masks(vec![(
        1u64,
        DirtyRectMask::Rects(vec![DirtyRect {
            min_x: 0,
            min_y: 0,
            max_x: (2 * TILE_IMAGE) as i32,
            max_y: 1,
        }]),
    )]);
    let dirty_nodes =
        DirtyPropagationEngine::new(5).collect_node_tile_masks(&tree, &layer_dirty_rect_masks);

    assert!(matches!(
        dirty_nodes.get(RenderNodeKey::Group(0)),
        Some(DirtyTileMask::Full)
    ));
}

#[test]
fn collect_node_tile_masks_keeps_partial_group_below_threshold() {
    let tree = group(0, BlendMode::Normal, vec![leaf(1, BlendMode::Normal)]);
    let dirty_tile = TileCoord {
        tile_x: 3,
        tile_y: 2,
    };
    let layer_dirty_rect_masks = masks(vec![(
        1u64,
        DirtyRectMask::Rects(vec![DirtyRect {
            min_x: (3 * TILE_IMAGE) as i32,
            min_y: (2 * TILE_IMAGE) as i32,
            max_x: (3 * TILE_IMAGE) as i32 + 1,
            max_y: (2 * TILE_IMAGE) as i32 + 1,
        }]),
    )]);
    let dirty_nodes =
        DirtyPropagationEngine::new(5).collect_node_tile_masks(&tree, &layer_dirty_rect_masks);

    assert!(matches!(
        dirty_nodes.get(RenderNodeKey::Group(0)),
        Some(DirtyTileMask::Partial(tiles)) if hashed(tiles) == HashSet::from([dirty_tile])
    ));
}

#[test]
fn collect_node_tile_masks_full_leaf_marks_all_ancestors_full() {
    let tree = group(
        0,
        BlendMode::Normal,
        vec![group(
            2,
            BlendMode::Normal,
            vec![leaf(10, BlendMode::Normal), leaf(11, BlendMode::Normal)],
        )],
    );
    let layer_dirty_rect_masks = masks(vec![(11u64, DirtyRectMask::Full)]);
    let dirty_nodes =
        DirtyPropagationEngine::new(64).collect_node_tile_masks(&tree, &layer_dirty_rect_masks);

    assert!(matches!(
        dirty_nodes.get(RenderNodeKey::Leaf(11)),
        Some(DirtyTileMask::Full)
    ));
    assert!(matches!(
        dirty_nodes.get(RenderNodeKey::Group(2)),
        Some(DirtyTileMask::Full)
    ));
    assert!(matches!(
        dirty_nodes.get(RenderNodeKey::Group(0)),
        Some(DirtyTileMask::Full)
    ));
}

#[test]
fn collect_node_dirty_rects_propagates_leaf_rects_to_parent_groups() {
    let tree = group(
        0,
        BlendMode::Normal,
        vec![leaf(7, BlendMode::Normal), leaf(8, BlendMode::Normal)],
    );
    let layer_dirty_rect_masks = masks(vec![
        (
            7u64,
            DirtyRectMask::Rects(vec![DirtyRect {
                min_x: 0,
                min_y: 0,
                max_x: 8,
                max_y: 8,
            }]),
        ),
        (
            8u64,
            DirtyRectMask::Rects(vec![DirtyRect {
                min_x: 16,
                min_y: 16,
                max_x: 24,
                max_y: 24,
            }]),
        ),
    ]);
    let mut node_dirty_rects = KeyMap::new();

    let root_mask = collect_node_dirty_rects(&tree, &layer_dirty_rect_masks, &mut node_dirty_rects)
        .expect("root should be dirty when at least one child is dirty");

    assert!(matches!(root_mask, DirtyRectMask::Rects(_)));
    assert!(node_dirty_rects.contains_key(RenderNodeKey::Leaf(7)));
    assert!(node_dirty_rects.contains_key(RenderNodeKey::Leaf(8)));
    assert!(node_dirty_rects.contains_key(RenderNodeKey::Group(0)));
}

#[test]
fn dirty_rect_to_tile_coords_handles_half_open_bounds() {
    let dirty_rect = DirtyRect {
        min_x: 0,
        min_y: 0,
        max_x: TILE_IMAGE as i32,
        max_y: TILE_IMAGE as i32,
    };
    let tiles = dirty_rect_to_tile_coords(dirty_rect);
    assert_eq!(
        hashed(&tiles),
        HashSet::from([TileCoord {
            tile_x: 0,
            tile_y: 0
        }])
    );

    let dirty_rect = DirtyRect {
        min_x: TILE_IMAGE as i32,
        min_y: 0,
        max_x: (TILE_IMAGE as i32) + 1,
        max_y: 1,
    };
    let tiles = dirty_rect_to_tile_coords(dirty_rect);
    assert_eq!(
        hashed(&tiles),
        HashSet::from([TileCoord {
            tile_x: 1,
            tile_y: 0
        }])
    );
}

#[test]
fn dirty_rect_to_tile_coords_clamps_negative_input() {
    let dirty_rect = DirtyRect {
        min_x: -100,
        min_y: -40,
        max_x: 1,
        max_y: 1,
    };
    let tiles = dirty_rect_to_tile_coords(dirty_rect);
    assert_eq!(
        hashed(&tiles),
        HashSet::from([TileCoord {
            tile_x: 0,
            tile_y: 0
        }])
    );
}

#[test]
fn group_cache_extent_rounds_up_to_tile_boundaries() {
    let extent = group_cache_extent_from_document_size(TILE_IMAGE + 7, TILE_IMAGE * 2 + 1);
    assert_eq!(extent.width, TILE_IMAGE * 2);
    assert_eq!(extent.height, TILE_IMAGE * 3);
    assert_eq!(extent.depth_or_array_layers, 1);
}

#[test]
fn group_cache_slot_extent_uses_tile_stride() {
    let extent = group_cache_slot_extent_from_document_size(TILE_IMAGE + 7, TILE_IMAGE * 2 + 1);
    assert_eq!(extent.width, TILE_STRIDE * 2);
    assert_eq!(extent.height, TILE_STRIDE * 3);
    assert_eq!(extent.depth_or_array_layers, 1);
}

#[test]
fn group_tile_grid_rounds_up_to_tile_boundaries() {
    let (tiles_per_row, tiles_per_column) =
        group_tile_grid_from_document_size(TILE_IMAGE + 7, TILE_IMAGE * 2 + 1);
    assert_eq!(tiles_per_row, 2);
    assert_eq!(tiles_per_column, 3);
    assert_eq!(group_tile_count(tiles_per_row, tiles_per_column), 6);
}

#[test]
#[should_panic(expected = "render tree root must be group 0")]
fn render_tree_root_guard_rejects_non_zero_group() {
    assert!(
        matches!(
            group(99, BlendMode::Normal, vec![leaf(7, BlendMode::Normal)]),
            RenderTreeNode::Group { group_id: 0, .. }
        ),
        "render tree root must be group 0"
    );
}

#[test]
fn brush_dispatch_does_not_panic_when_endstroke_enqueued_with_pending_chunk() {
    let key = BrushProgramKey {
        brush_id: 10,
        program_revision: 99,
    };

    let mut brush_work_state = BrushWorkState {
        pending_commands: VecDeque::new(),
        pending_dab_count: 0,
        carry_credit_dabs: 0,
        prepared_programs: KeyMap::new(),
        active_program_by_brush: KeyMap::new(),
        active_strokes: KeyMap::new(),
        executing_strokes: KeyMap::new(),
        reference_sets: KeyMap::new(),
        stroke_reference_set: KeyMap::new(),
        stroke_target_layer: KeyMap::new(),
        ended_strokes_pending_merge: KeyMap::new(),
        bound_buffer_tile_keys_by_stroke: KeyMap::new(),
    };

    brush_work_state.executing_strokes.insert(1, key);
    brush_work_state
        .bound_buffer_tile_keys_by_stroke
        .insert(1, KeyMap::new());
    brush_work_state.stroke_target_layer.insert(1, 1234);

    let bits = |value: f32| FloatBits(value.to_bits());
    let chunk = BrushDabChunkF32::from_slices(1, &[bits(1.0)], &[bits(2.0)], &[bits(0.5)])
        .expect("chunk");
    brush_work_state
        .pending_commands
        .push_back(BrushRenderCommand::PushDabChunkF32(chunk));

    // Simulate enqueuing the end of the stroke after a chunk is already pending.
    brush_work_state.enqueue_end_stroke(1);

    let pending = brush_work_state
        .pending_commands
        .front()
        .cloned()
        .expect("pending command");
    match pending {
        BrushRenderCommand::PushDabChunkF32(chunk) => {
            let _ = brush_work_state.dispatch_context_for_brush_chunk(chunk.stroke_session_id);
        }
        other => panic!("unexpected pending command: {other:?}"),
    }
}

struct HistoryResolver {
    layer_id: u64,
    dirty_tiles: Vec<TileCoord>,
    version: u64,
}

impl RenderDataResolver for HistoryResolver {
    fn document_size(&self) -> (u32, u32) {
        (TILE_IMAGE * 4, TILE_IMAGE * 4)
    }

    fn image_source_tiles(&self, _image_source: ImageSource) -> Vec<PlacedTile> {
        Vec::new()
    }

    fn image_source_tiles_for_coords(
        &self,
        _image_source: ImageSource,
        _coords: &KeySet<TileCoord>,
    ) -> Vec<PlacedTile> {
        Vec::new()
    }

    fn resolve_image_source_tile_address(
        &self,
        _image_source: ImageSource,
        _tile_key: TileKey,
    ) -> Option<TileAddress> {
        None
    }

    fn propagate_layer_dirty_rects(
        &self,
        _layer_id: u64,
        incoming_rects: &Vec<DirtyRect>,
    ) -> Vec<DirtyRect> {
        incoming_rects.to_vec()
    }

    fn layer_dirty_since(&self, layer_id: u64, _since_version: u64) -> Option<DirtySinceResult> {
        if layer_id != self.layer_id {
            return None;
        }
        Some(DirtySinceResult::HasChanges(TileDirtyQuery {
            latest_version: self.version,
            dirty_tiles: TileDirtySet::Tiles(self.dirty_tiles.clone()),
        }))
    }

    fn layer_version(&self, layer_id: u64) -> Option<u64> {
        if layer_id == self.layer_id {
            Some(self.version)
        } else {
            None
        }
    }
}

#[test]
fn merge_handle_swap_should_keep_incremental_dirty_from_history() {
    let layer_id = 7u64;
    let render_tree = RenderNodeSnapshot::Group {
        group_id: 0,
        blend: BlendMode::Normal,
        children: Arc::new(vec![RenderNodeSnapshot::Leaf {
            layer_id,
            blend: BlendMode::Normal,
            image_handle: ImageHandle::from_ffi(12),
        }]),
    };
    let resolver = HistoryResolver {
        layer_id,
        dirty_tiles: vec![coord(1, 0), coord(2, 1)],
        version: 99,
    };

    let mut layer_dirty_versions = KeyMap::new();
    layer_dirty_versions.insert(layer_id, 98);
    let mut frame_state = FrameState {
        bound_tree: None,
        cached_render_tree: None,
        render_tree_dirty: false,
        dirty_state_store: DirtyStateStore::default(),
        frame_sync: FrameSync::default(),
        layer_dirty_versions,
    };

    mark_dirty_from_tile_history(&mut frame_state, &resolver, Some(&render_tree));
    let masks = frame_state
        .dirty_state_store
        .resolve_layer_dirty_rect_masks(&resolver);
    let Some(mask) = masks.get(layer_id) else {
        panic!("expected layer dirty mask after merge");
    };

    let DirtyRectMask::Rects(rects) = mask else {
        panic!("expected partial dirty from merge buffer tiles, got {mask:?}");
    };
    let tiles = rects
        .iter()
        .map(|rect| {
            (
                u32::try_from(rect.min_x).expect("min x non-negative") / TILE_IMAGE,
                u32::try_from(rect.min_y).expect("min y non-negative") / TILE_IMAGE,
            )
        })
        .collect::<HashSet<_>>();
    assert_eq!(tiles, HashSet::from([(1, 0), (2, 1)]));
    assert_eq!(frame_state.layer_dirty_versions.get(layer_id), Some(&99));
}

fn single_slot_layout() -> TileAtlasLayout {
    TileAtlasLayout {
        tiles_per_row: 1,
        tiles_per_column: 1,
        atlas_width: TILE_STRIDE,
        atlas_height: TILE_STRIDE,
    }
}

fn first_slot() -> TileAddress {
    TileAddress {
        atlas_layer: 0,
        tile_index: 0,
    }
}

#[test]
fn brush_dab_region_assert_allows_write_within_slot() {
    assert!(brush_dab_write_region_in_slot(
        20,
        21,
        30,
        31,
        first_slot(),
        single_slot_layout()
    ));
}

#[test]
fn brush_dab_region_assert_allows_content_edge_for_clipped_write() {
    assert!(brush_dab_write_region_in_slot(
        TILE_GUTTER,
        TILE_GUTTER,
        TILE_GUTTER + 2,
        TILE_GUTTER + 2,
        first_slot(),
        single_slot_layout(),
    ));
}

#[test]
#[should_panic(expected = "brush dab write region crosses tile slot boundary")]
fn brush_dab_region_assert_panics_when_crossing_slot() {
    assert!(
        brush_dab_write_region_in_slot(
            0,
            0,
            TILE_STRIDE + 1,
            TILE_GUTTER + 2,
            first_slot(),
            single_slot_layout(),
        ),
        "brush dab write region crosses tile slot boundary"
    );
}

fn snapshot(revision: u64, root: RenderTreeNode) -> RenderTreeSnapshot {
    RenderTreeSnapshot {
        revision,
        root: Arc::new(root),
    }
}

fn render_uniform_tile_from_snapshot(
    snapshot: &RenderTreeSnapshot,
    layer_colors: &HashMap<u64, [f32; 4]>,
) -> Vec<u8> {
    solid_tile(evaluate_node_color(snapshot.root.as_ref(), layer_colors))
}

fn evaluate_node_color(node: &RenderTreeNode, layer_colors: &HashMap<u64, [f32; 4]>) -> [f32; 4] {
    match node {
        RenderTreeNode::Leaf { layer_id, .. } => layer_colors
            .get(layer_id)
            .copied()
            .expect("missing test color for layer"),
        RenderTreeNode::Group { children, .. } => {
            let mut destination = [0.0, 0.0, 0.0, 0.0];
            for child in children.iter() {
                let source = evaluate_node_color(child, layer_colors);
                let blend = match child {
                    RenderTreeNode::Leaf { blend, .. } | RenderTreeNode::Group { blend, .. } => {
                        *blend
                    }
                };
                destination = match blend {
                    BlendMode::Normal => normal_blend_color(source, destination),
                    BlendMode::Multiply => multiply_blend_color(source, destination),
                };
            }
            destination
        }
    }
}

fn normal_blend_color(source: [f32; 4], destination: [f32; 4]) -> [f32; 4] {
    let one_minus_source_alpha = 1.0 - source[3];
    [
        source[0] * source[3] + destination[0] * one_minus_source_alpha,
        source[1] * source[3] + destination[1] * one_minus_source_alpha,
        source[2] * source[3] + destination[2] * one_minus_source_alpha,
        source[3] + destination[3] * one_minus_source_alpha,
    ]
}

fn multiply_blend_color(source: [f32; 4], destination: [f32; 4]) -> [f32; 4] {
    let one_minus_source_alpha = 1.0 - source[3];
    [
        source[0] * destination[0] + destination[0] * one_minus_source_alpha,
        source[1] * destination[1] + destination[1] * one_minus_source_alpha,
        source[2] * destination[2] + destination[2] * one_minus_source_alpha,
        source[3] + destination[3] * one_minus_source_alpha,
    ]
}

fn multiply_color(left: [f32; 4], right: [f32; 4]) -> [f32; 4] {
    [
        left[0] * right[0],
        left[1] * right[1],
        left[2] * right[2],
        left[3] * right[3],
    ]
}

fn solid_tile(color: [f32; 4]) -> Vec<u8> {
    let pixel = color.map(|channel| (channel.clamp(0.0, 1.0) * 255.0).round() as u8);
    let mut bytes = Vec::new();
    for _ in 0..TILE_IMAGE * TILE_IMAGE {
        bytes.extend(pixel);
    }
    bytes
}

#[test]
fn isolated_nested_groups_match_manual_expected_solid_tile() {
    let snapshot = snapshot(
        11,
        group(
            0,
            BlendMode::Normal,
            vec![
                leaf(101, BlendMode::Normal),
                group(
                    22,
                    BlendMode::Multiply,
                    vec![
                        leaf(204, BlendMode::Normal),
                        group(
                            21,
                            BlendMode::Normal,
                            vec![leaf(201, BlendMode::Normal), leaf(202, BlendMode::Multiply)],
                        ),
                        leaf(203, BlendMode::Multiply),
                    ],
                ),
                leaf(102, BlendMode::Multiply),
            ],
        ),
    );

    let layer_colors = HashMap::from([
        (101u64, [0.8, 0.5, 0.4, 1.0]),
        (204u64, [0.3, 0.9, 0.7, 1.0]),
        (201u64, [0.6, 0.2, 0.9, 1.0]),
        (202u64, [0.5, 0.7, 0.4, 1.0]),
        (203u64, [0.4, 0.25, 0.8, 1.0]),
        (102u64, [0.9, 0.6, 0.5, 1.0]),
    ]);

    let actual_tile = render_uniform_tile_from_snapshot(&snapshot, &layer_colors);

    let outside_normal = layer_colors[&101];
    let inner_normal = layer_colors[&201];
    let inner_multiply = layer_colors[&202];
    let in_group_multiply = layer_colors[&203];
    let outside_multiply = layer_colors[&102];
    let expected_color = multiply_color(
        multiply_color(
            outside_normal,
            multiply_color(
                multiply_color(inner_normal, inner_multiply),
                in_group_multiply,
            ),
        ),
        outside_multiply,
    );
    let expected_tile = solid_tile(expected_color);

    assert_eq!(actual_tile, expected_tile);

    let flattened_without_isolation = multiply_color(
        multiply_color(inner_normal, inner_multiply),
        multiply_color(in_group_multiply, outside_multiply),
    );
    assert_ne!(flattened_without_isolation, expected_color);
}
