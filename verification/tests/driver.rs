use std::collections::{HashMap, VecDeque};
use std::sync::Arc;

use glaphica::collections::{KeyMap, KeySet};
use glaphica::render_protocol::{
    BlendMode, BrushBufferAllocate, BrushBufferMerge, BrushControlAck, BrushControlCommand,
    BrushDabChunkF32, BrushProgramActivation, BrushProgramKey, BrushProgramUpsert,
    BrushRenderCommand, BrushStrokeBegin, BrushStrokeEnd, BufferTileCoordinate, GpuMergeOp,
    GpuTileRef, ImageHandle, MergePlanMeta, ReceiptTerminalState, ReferenceLayerSelection,
    ReferenceSetUpsert, RenderNodeSnapshot, RenderOp, RenderStepSupportMatrix,
    RenderTreeSnapshot, StrokeExecutionReceipt, StrokeExecutionReceiptId, Viewport,
};
use glaphica::renderer::brush::{
    BrushBindingFault, BrushControlError, BrushExecutionFault, BrushRenderEnqueueError, BrushWork,
};
use glaphica::renderer::brush_dabs::{
    dispatch_brush_chunk, map_chunk_dabs, DabFootprint, DabMappingFault, DabSpan,
};
use glaphica::renderer::composite::{
    copy_group_tile_from_texture, root_group_instances, CompositeAction, CompositeFault, DrawAtlas,
};
use glaphica::renderer::dirty::{DirtyRect, TileCoord};
use glaphica::renderer::draw_builders::{
    tile_coord_from_draw_instance, TileDrawInstance, TileInstanceGpu,
};
use glaphica::renderer::draw_list::{
    draw_instance_runs, duplicated_tile_coord, resolve_effective_draw_instances,
    tile_instance_capacity, CompositePipeline, DrawRun, TileCompositeSpace,
};
use glaphica::renderer::driver::Renderer;
use glaphica::renderer::frame::can_commit_frame;
use glaphica::renderer::geometry::group_cache_extent_from_document_size;
use glaphica::renderer::group_cache::create_group_target_cache_entry;
use glaphica::renderer::group_tiles::{FreshTile, GroupTiles};
use glaphica::renderer::merge::{
    CompletionSignal, DevicePoll, MergeSubmitError, MergeTileRefRole,
};
use glaphica::renderer::merge_submission::MergeAtlases;
use glaphica::renderer::plan_stats::{
    collect_composite_plan_perf_stats, CompositePlanPerfStats,
};
use glaphica::renderer::resolver::{
    DirtySinceResult, ImageSource, PlacedTile, RenderDataResolver,
};
use glaphica::renderer::state::{identity_matrix, matrix_bytes};
use glaphica::renderer::timing::{
    elapsed_ticks, elapsed_ticks_of_bytes, timing_query_indices, TimingMapEvent,
};
use glaphica::renderer::view_ops::render_node_semantics_equal_ignoring_image_handle;
use glaphica::scalar::FloatBits;
use glaphica::tiles::{TileAddress, TileAtlasLayout, TileKey, TILE_IMAGE, TILE_STRIDE};

fn bits(value: f32) -> FloatBits {
    FloatBits(value.to_bits())
}

fn words(bytes: &[u8]) -> Vec<u32> {
    bytes
        .chunks(4)
        .map(|word| u32::from_ne_bytes([word[0], word[1], word[2], word[3]]))
        .collect()
}

fn coord(tile_x: u32, tile_y: u32) -> TileCoord {
    TileCoord { tile_x, tile_y }
}

/// A document of two by one tiles. Each image has the tiles that are listed.
struct Document {
    tiles: HashMap<u64, Vec<PlacedTile>>,
}

impl Document {
    fn new(images: &[(u64, u32)]) -> Document {
        let mut tiles = HashMap::new();
        for (handle, slot) in images {
            tiles.insert(
                ImageHandle::from_ffi(*handle).as_ffi(),
                vec![
                    PlacedTile {
                        coord: coord(0, 0),
                        key: TileKey::from_parts(0, 0, *slot),
                    },
                    PlacedTile {
                        coord: coord(1, 0),
                        key: TileKey::from_parts(0, 0, *slot + 1),
                    },
                ],
            );
        }
        Document { tiles }
    }
}

impl RenderDataResolver for Document {
    fn document_size(&self) -> (u32, u32) {
        (TILE_IMAGE * 2, TILE_IMAGE)
    }

    fn image_source_tiles(&self, image_source: ImageSource) -> Vec<PlacedTile> {
        match image_source {
            ImageSource::LayerImage { image_handle } => self
                .tiles
                .get(&image_handle.as_ffi())
                .cloned()
                .unwrap_or_default(),
            ImageSource::BrushBuffer { .. } => Vec::new(),
        }
    }

    fn image_source_tiles_for_coords(
        &self,
        image_source: ImageSource,
        coords: &KeySet<TileCoord>,
    ) -> Vec<PlacedTile> {
        let mut tiles = self.image_source_tiles(image_source);
        tiles.retain(|tile| coords.contains(tile.coord));
        tiles
    }

    fn resolve_image_source_tile_address(
        &self,
        _image_source: ImageSource,
        tile_key: TileKey,
    ) -> Option<TileAddress> {
        Some(TileAddress {
            atlas_layer: 0,
            tile_index: tile_key.slot_index() as u16,
        })
    }

    fn propagate_layer_dirty_rects(
        &self,
        _layer_id: u64,
        incoming_rects: &Vec<DirtyRect>,
    ) -> Vec<DirtyRect> {
        incoming_rects.clone()
    }

    fn layer_dirty_since(&self, _layer_id: u64, _since_version: u64) -> Option<DirtySinceResult> {
        None
    }

    fn layer_version(&self, _layer_id: u64) -> Option<u64> {
        None
    }
}

fn leaf(layer_id: u64, handle: u64) -> RenderNodeSnapshot {
    RenderNodeSnapshot::Leaf {
        layer_id,
        blend: BlendMode::Normal,
        image_handle: ImageHandle::from_ffi(handle),
    }
}

fn tree(revision: u64, children: Vec<RenderNodeSnapshot>) -> RenderTreeSnapshot {
    RenderTreeSnapshot {
        revision,
        root: Arc::new(RenderNodeSnapshot::Group {
            group_id: 0,
            blend: BlendMode::Normal,
            children: Arc::new(children),
        }),
    }
}

fn group_tiles(count: u32) -> GroupTiles {
    let mut fresh = VecDeque::new();
    for slot in 0..count {
        fresh.push_back(FreshTile {
            key: TileKey::from_parts(1, 0, slot),
            address: TileAddress {
                atlas_layer: 4,
                tile_index: slot as u16,
            },
        });
    }
    GroupTiles {
        addresses: KeyMap::new(),
        fresh,
    }
}

fn renderer() -> Renderer {
    Renderer::new(640, 480, true, 3)
}

#[test]
fn first_frame_composes_the_document_and_the_second_draws_from_the_cache() {
    let document = Document::new(&[(0x1_0000_0001, 10), (0x1_0000_0002, 20)]);
    let extent = group_cache_extent_from_document_size(TILE_IMAGE * 2, TILE_IMAGE);
    let mut renderer = renderer();
    let released = renderer.apply_view_op(RenderOp::BindRenderTree(tree(
        3,
        vec![leaf(1, 0x1_0000_0001), leaf(2, 0x1_0000_0002)],
    )));
    assert!(released.is_empty());
    assert_eq!(renderer.bound_tree().map(|bound| bound.revision), Some(3));

    let frame_id = renderer.next_frame_id();
    let plan = renderer.build_frame_plan(&document, frame_id);
    assert_eq!(plan.version.snapshot_revision, 3);
    let mut stats = CompositePlanPerfStats {
        leaf_nodes: 0,
        rebuilt_leaf_nodes: 0,
        rebuilt_leaf_partial_tiles: 0,
        rebuilt_leaf_unknown_tiles: 0,
        group_nodes: 0,
        rerender_group_nodes: 0,
        rerender_group_tiles: 0,
        cache_group_nodes: 0,
    };
    collect_composite_plan_perf_stats(plan.composite_plan.as_ref().unwrap(), &mut stats);
    assert_eq!((stats.leaf_nodes, stats.rebuilt_leaf_nodes), (2, 2));
    assert_eq!((stats.group_nodes, stats.rerender_group_nodes), (1, 1));

    let done = match renderer.execute_frame_plan(plan, &document, extent, group_tiles(4)) {
        Ok(done) => done,
        Err(fault) => panic!("unexpected fault: {fault:?}"),
    };
    assert!(matches!(
        done.actions[0],
        CompositeAction::OpenGroup { group_id: 0 }
    ));
    let drawn: usize = done
        .actions
        .iter()
        .map(|action| match action {
            CompositeAction::Draw {
                atlas: DrawAtlas::Layers,
                instances,
            } => instances.len(),
            _ => 0,
        })
        .sum();
    assert_eq!(drawn, 4);
    match done.actions.last() {
        Some(CompositeAction::CloseGroup { group_id: 0, copies }) => assert_eq!(copies.len(), 2),
        _ => panic!("the group must be closed last"),
    }
    assert_eq!(done.group_tiles.fresh.len(), 2);
    assert_eq!(done.group_tiles.addresses.len(), 2);
    assert!(can_commit_frame(&renderer.frame_state, done.outcome.version));
    renderer.commit_frame_result(done.outcome);
    let shown = root_group_instances(&renderer.cache_state).unwrap();
    assert_eq!(shown.len(), 2);
    assert_eq!(shown[0].tile.atlas_layer, 4);

    let frame_id = renderer.next_frame_id();
    let plan = renderer.build_frame_plan(&document, frame_id);
    let again = match renderer.execute_frame_plan(plan, &document, extent, done.group_tiles) {
        Ok(done) => done,
        Err(fault) => panic!("unexpected fault: {fault:?}"),
    };
    assert!(again.actions.is_empty());
    renderer.commit_frame_result(again.outcome);

    renderer.mark_layer_dirty_rect(
        2,
        DirtyRect {
            min_x: 0,
            min_y: 0,
            max_x: 5,
            max_y: 5,
        },
    );
    let frame_id = renderer.next_frame_id();
    let plan = renderer.build_frame_plan(&document, frame_id);
    let partly = match renderer.execute_frame_plan(plan, &document, extent, again.group_tiles) {
        Ok(done) => done,
        Err(fault) => panic!("unexpected fault: {fault:?}"),
    };
    assert!(!partly.actions.is_empty());
    assert_eq!(partly.group_tiles.fresh.len(), 2);
}

#[test]
fn frames_are_composed_with_the_tiles_that_dropped_work_gives_back() {
    let document = Document::new(&[(0x1_0000_0001, 10)]);
    let extent = group_cache_extent_from_document_size(TILE_IMAGE * 2, TILE_IMAGE);
    let mut renderer = renderer();
    renderer.apply_view_op(RenderOp::BindRenderTree(tree(
        1,
        vec![leaf(1, 0x1_0000_0001)],
    )));
    let plan = renderer.build_frame_plan(&document, 1);
    let done = match renderer.execute_frame_plan(plan, &document, extent, group_tiles(2)) {
        Ok(done) => done,
        Err(fault) => panic!("unexpected fault: {fault:?}"),
    };
    let mut tiles = done.group_tiles;
    assert!(tiles.fresh.is_empty());
    renderer.commit_frame_result(done.outcome);

    let mut released =
        renderer.apply_view_op(RenderOp::DropStaleWorkBeforeRevision { revision: 2 });
    assert_eq!(released.keys(), vec![0]);
    if let Some(entry) = released.remove(0) {
        tiles.release_group_cache_entry(&entry);
    }
    assert_eq!((tiles.fresh.len(), tiles.addresses.len()), (2, 0));

    renderer.apply_view_op(RenderOp::BindRenderTree(tree(
        2,
        vec![leaf(1, 0x1_0000_0001)],
    )));
    let plan = renderer.build_frame_plan(&document, 2);
    let again = match renderer.execute_frame_plan(plan, &document, extent, tiles) {
        Ok(done) => done,
        Err(fault) => panic!("unexpected fault: {fault:?}"),
    };
    assert_eq!(again.group_tiles.addresses.len(), 2);
    assert_eq!(root_group_instances(&renderer.cache_state).unwrap().len(), 2);
    let cached = renderer.cache_state.leaf_draw_cache.get(1).unwrap();
    assert_eq!(cached.draw_instances.len(), 2);
    for (position, instance) in cached.draw_instances.iter().enumerate() {
        assert_eq!(
            cached
                .tile_instance_index
                .get(tile_coord_from_draw_instance(instance)),
            Some(&position)
        );
    }
}

#[test]
fn frames_that_were_planned_before_a_change_are_not_committed() {
    let document = Document::new(&[]);
    let mut renderer = renderer();
    renderer.apply_view_op(RenderOp::BindRenderTree(tree(1, vec![])));
    let plan = renderer.build_frame_plan(&document, 1);
    assert!(can_commit_frame(&renderer.frame_state, plan.version));
    assert!(!renderer.resize(640, 480));
    assert!(renderer.resize(0, 480));
    assert_eq!(renderer.surface_width, 1);
    assert!(!can_commit_frame(&renderer.frame_state, plan.version));
}

#[test]
fn composing_needs_fresh_tiles() {
    let document = Document::new(&[(0x1_0000_0001, 10)]);
    let extent = group_cache_extent_from_document_size(TILE_IMAGE * 2, TILE_IMAGE);
    let mut renderer = renderer();
    renderer.apply_view_op(RenderOp::BindRenderTree(tree(
        1,
        vec![leaf(1, 0x1_0000_0001)],
    )));
    let plan = renderer.build_frame_plan(&document, 1);
    match renderer.execute_frame_plan(plan, &document, extent, group_tiles(1)) {
        Err(fault) => assert_eq!(fault, CompositeFault::NoFreshTile),
        Ok(_) => panic!("one tile is not enough"),
    }
}

#[test]
fn a_cache_of_another_extent_gives_its_tiles_to_the_new_one() {
    let document = Document::new(&[(0x1_0000_0001, 10)]);
    let extent = group_cache_extent_from_document_size(TILE_IMAGE * 2, TILE_IMAGE);
    let mut renderer = renderer();
    renderer.apply_view_op(RenderOp::BindRenderTree(tree(
        1,
        vec![leaf(1, 0x1_0000_0001)],
    )));
    let plan = renderer.build_frame_plan(&document, 1);
    let done = match renderer.execute_frame_plan(plan, &document, extent, group_tiles(2)) {
        Ok(done) => done,
        Err(fault) => panic!("unexpected fault: {fault:?}"),
    };
    assert!(done.group_tiles.fresh.is_empty());
    renderer.commit_frame_result(done.outcome);

    renderer.mark_layer_dirty_rect(
        1,
        DirtyRect {
            min_x: 0,
            min_y: 0,
            max_x: 5,
            max_y: 5,
        },
    );
    let smaller = group_cache_extent_from_document_size(TILE_IMAGE, TILE_IMAGE);
    let plan = renderer.build_frame_plan(&document, 2);
    let done = match renderer.execute_frame_plan(plan, &document, smaller, done.group_tiles) {
        Ok(done) => done,
        Err(fault) => panic!("unexpected fault: {fault:?}"),
    };
    assert_eq!(done.group_tiles.fresh.len(), 1);
    assert_eq!(done.group_tiles.addresses.len(), 1);
    assert_eq!(root_group_instances(&renderer.cache_state).unwrap().len(), 1);
}

#[test]
fn view_operations_are_taken_over() {
    let mut renderer = renderer();
    let mut matrix = renderer.view_matrix();
    matrix[12] = bits(7.0);
    let viewport = Viewport {
        origin_x: 1,
        origin_y: 2,
        width: 3,
        height: 4,
    };
    let released = renderer.drain_view_ops(VecDeque::from([
        RenderOp::SetViewTransform { matrix },
        RenderOp::SetViewport(viewport),
        RenderOp::SetBrushCommandQuota { max_commands: 9 },
        RenderOp::PresentToSurface,
    ]));
    assert_eq!(released.len(), 4);
    assert_eq!(renderer.view_matrix(), matrix);
    assert_eq!(renderer.viewport(), Some(viewport));
    assert_eq!(renderer.brush_command_quota(), 9);
    assert!(renderer.take_present_request());
    assert!(!renderer.take_present_request());

    renderer.apply_view_op(RenderOp::DropStaleWorkBeforeRevision { revision: 5 });
    renderer.apply_view_op(RenderOp::BindRenderTree(tree(4, vec![])));
    assert!(renderer.bound_tree().is_none());
    renderer.apply_view_op(RenderOp::BindRenderTree(tree(5, vec![])));
    assert!(renderer.bound_tree().is_some());
}

#[test]
fn trees_with_other_images_mean_the_same() {
    let first = leaf(1, 0x1_0000_0001);
    let swapped = leaf(1, 0x3_0000_0001);
    assert!(render_node_semantics_equal_ignoring_image_handle(
        &first, &swapped
    ));
    assert!(!render_node_semantics_equal_ignoring_image_handle(
        &first,
        &leaf(2, 0x1_0000_0001)
    ));
    assert!(!render_node_semantics_equal_ignoring_image_handle(
        &first,
        &tree(1, vec![]).root
    ));
}

fn begin(stroke_session_id: u64) -> BrushRenderCommand {
    BrushRenderCommand::BeginStroke(BrushStrokeBegin {
        stroke_session_id,
        brush_id: 5,
        program_revision: 2,
        reference_set_id: 8,
        target_layer_id: 70,
        discontinuity_before: false,
    })
}

fn chunk(stroke_session_id: u64, dabs: usize) -> BrushRenderCommand {
    let column = vec![bits(0.5); dabs];
    BrushRenderCommand::PushDabChunkF32(
        BrushDabChunkF32::from_slices(stroke_session_id, &column, &column, &column).unwrap(),
    )
}

fn end(stroke_session_id: u64) -> BrushRenderCommand {
    BrushRenderCommand::EndStroke(BrushStrokeEnd { stroke_session_id })
}

fn merge(stroke_session_id: u64, target_layer_id: u64) -> BrushRenderCommand {
    BrushRenderCommand::MergeBuffer(BrushBufferMerge {
        stroke_session_id,
        target_layer_id,
    })
}

fn prepared_renderer() -> Renderer {
    let mut renderer = renderer();
    let upsert = || {
        BrushControlCommand::UpsertBrushProgram(BrushProgramUpsert {
            brush_id: 5,
            program_revision: 2,
            payload_hash: 77,
            wgsl_source: "fn main() {}".to_owned(),
        })
    };
    let activate = || {
        BrushControlCommand::ActivateBrushProgram(BrushProgramActivation {
            brush_id: 5,
            program_revision: 2,
        })
    };
    let key = BrushProgramKey {
        brush_id: 5,
        program_revision: 2,
    };
    assert_eq!(
        renderer.apply_brush_control_command(activate()),
        Err(BrushControlError::ProgramNotPrepared { key })
    );
    assert_eq!(
        renderer.enqueue_brush_render_command(begin(1)),
        Err(BrushRenderEnqueueError::ProgramNotPrepared { key })
    );
    assert_eq!(
        renderer.apply_brush_control_command(upsert()),
        Ok(BrushControlAck::Prepared)
    );
    assert_eq!(
        renderer.apply_brush_control_command(upsert()),
        Ok(BrushControlAck::AlreadyPrepared)
    );
    assert_eq!(
        renderer.enqueue_brush_render_command(begin(1)),
        Err(BrushRenderEnqueueError::ProgramNotActivated { key })
    );
    assert_eq!(
        renderer.apply_brush_control_command(activate()),
        Ok(BrushControlAck::Activated)
    );
    assert_eq!(
        renderer.enqueue_brush_render_command(begin(1)),
        Err(BrushRenderEnqueueError::ReferenceSetMissing {
            reference_set_id: 8
        })
    );
    assert_eq!(
        renderer.apply_brush_control_command(BrushControlCommand::UpsertReferenceSet(
            ReferenceSetUpsert {
                reference_set_id: 8,
                selection: ReferenceLayerSelection::CurrentLayer,
            }
        )),
        Ok(BrushControlAck::ReferenceSetUpserted)
    );
    renderer
}

#[test]
fn stroke_is_drawn_within_the_quota_and_merged_once() {
    let mut renderer = prepared_renderer();
    assert_eq!(
        renderer.enqueue_brush_render_command(chunk(1, 1)),
        Err(BrushRenderEnqueueError::UnknownStroke {
            stroke_session_id: 1
        })
    );
    renderer.enqueue_brush_render_command(begin(1)).unwrap();
    let place = BufferTileCoordinate {
        tile_x: 0,
        tile_y: 0,
    };
    renderer
        .enqueue_brush_render_command(BrushRenderCommand::AllocateBufferTiles(
            BrushBufferAllocate {
                stroke_session_id: 1,
                tiles: vec![place],
            },
        ))
        .unwrap();
    renderer.enqueue_brush_render_command(chunk(1, 2)).unwrap();
    assert_eq!(
        renderer.enqueue_brush_render_command(merge(1, 70)),
        Err(BrushRenderEnqueueError::MergeBeforeStrokeEnd {
            stroke_session_id: 1
        })
    );
    renderer.enqueue_brush_render_command(end(1)).unwrap();
    assert_eq!(
        renderer.enqueue_brush_render_command(begin(2)),
        Err(BrushRenderEnqueueError::BeginWithPendingMerge)
    );
    assert_eq!(
        renderer.enqueue_brush_render_command(merge(1, 71)),
        Err(BrushRenderEnqueueError::MergeTargetLayerMismatch {
            stroke_session_id: 1,
            expected_layer_id: 70,
            received_layer_id: 71,
        })
    );
    renderer.enqueue_brush_render_command(merge(1, 70)).unwrap();
    assert_eq!(renderer.pending_brush_dab_count(), 2);
    assert_eq!(renderer.pending_brush_command_count(), 5);
    assert!(matches!(
        renderer.consume_brush_batches_for_frame(),
        Ok(work) if work.is_empty()
    ));
    renderer.apply_view_op(RenderOp::SetBrushCommandQuota { max_commands: 16 });

    let key = TileKey::from_parts(2, 0, 3);
    let mut addresses = KeyMap::new();
    let binding = vec![(place, key)];
    assert_eq!(
        renderer.bind_brush_buffer_tiles(1, &binding, &addresses),
        Err(BrushBindingFault::UnresolvedTile { coordinate: place })
    );
    addresses.insert(
        key,
        TileAddress {
            atlas_layer: 0,
            tile_index: 3,
        },
    );
    renderer
        .bind_brush_buffer_tiles(1, &binding, &addresses)
        .unwrap();
    let other = BufferTileCoordinate {
        tile_x: 1,
        tile_y: 0,
    };
    assert_eq!(
        renderer.bind_brush_buffer_tiles(1, &vec![(other, key)], &addresses),
        Err(BrushBindingFault::DuplicateTile {
            tile_key: key,
            previous: place,
            coordinate: other,
        })
    );
    let work = renderer.consume_brush_batches_for_frame().unwrap();
    assert_eq!(work.len(), 2);
    assert!(matches!(
        &work[0],
        BrushWork::DispatchChunk { chunk, tiles }
            if chunk.dab_count() == 2 && tiles.get(place) == Some(&key)
    ));
    assert!(matches!(
        work[1],
        BrushWork::Merge {
            stroke_session_id: 1
        }
    ));
    assert_eq!(renderer.pending_brush_dab_count(), 0);
    renderer.enqueue_brush_render_command(begin(2)).unwrap();
}

#[test]
fn dabs_need_the_tiles_of_their_stroke() {
    let mut renderer = prepared_renderer();
    renderer.apply_view_op(RenderOp::SetBrushCommandQuota { max_commands: 16 });
    renderer.enqueue_brush_render_command(begin(1)).unwrap();
    renderer.enqueue_brush_render_command(chunk(1, 2)).unwrap();
    assert!(matches!(
        renderer.consume_brush_batches_for_frame(),
        Err(BrushExecutionFault::DabsWithoutTiles {
            stroke_session_id: 1
        })
    ));
}

#[test]
fn dabs_become_writes_within_their_slots() {
    let layout = TileAtlasLayout {
        tiles_per_row: 2,
        tiles_per_column: 1,
        atlas_width: 2 * TILE_STRIDE,
        atlas_height: TILE_STRIDE,
    };
    let place = BufferTileCoordinate {
        tile_x: 4,
        tile_y: 2,
    };
    let key = TileKey::from_parts(2, 0, 1);
    let mut tiles = KeyMap::new();
    tiles.insert(place, key);
    let mut addresses = KeyMap::new();
    let dab = |x: i32, y: i32, pressure: f32| DabFootprint {
        x: DabSpan {
            first_tile: 4,
            local_centers: vec![x],
        },
        y: DabSpan {
            first_tile: 2,
            local_centers: vec![y],
        },
        pressure: bits(pressure),
    };
    assert_eq!(
        map_chunk_dabs(&vec![dab(9, 9, 0.5)], &tiles, &addresses, layout, 4),
        Err(DabMappingFault::UnresolvedTile { tile_key: key })
    );
    addresses.insert(
        key,
        TileAddress {
            atlas_layer: 6,
            tile_index: 1,
        },
    );
    let writes =
        map_chunk_dabs(&vec![dab(0, 40, 2.0)], &tiles, &addresses, layout, 4).unwrap();
    assert_eq!(writes.len(), 1);
    assert_eq!((writes[0].write_min_x, writes[0].write_max_x), (128, 132));
    assert_eq!((writes[0].write_min_y, writes[0].write_max_y), (38, 44));
    assert_eq!(writes[0].atlas_layer, 6);
    assert_eq!(writes[0].pressure, bits(1.0));
    let dispatch =
        dispatch_brush_chunk(&vec![dab(0, 40, 2.0)], &tiles, &addresses, layout, 4).unwrap();
    let dispatch = dispatch.unwrap();
    assert_eq!(dispatch.workgroups, 1);
    assert_eq!(
        words(&dispatch.write_bytes),
        vec![128, 38, 132, 44, 6, bits(1.0).0]
    );
    assert_eq!(
        words(&dispatch.meta_bytes),
        vec![1, 2 * TILE_STRIDE, TILE_STRIDE, 0]
    );
    assert_eq!(
        dispatch_brush_chunk(&Vec::new(), &tiles, &addresses, layout, 4),
        Ok(None)
    );
    assert_eq!(
        map_chunk_dabs(
            &vec![dab(0, 40, 1.0), dab(0, 40, 1.0)],
            &tiles,
            &addresses,
            layout,
            1
        ),
        Err(DabMappingFault::TooManyWrites)
    );
    assert_eq!(
        map_chunk_dabs(&vec![dab(0, 0, f32::NAN)], &tiles, &addresses, layout, 4),
        Err(DabMappingFault::NotFinite)
    );
    let elsewhere = DabFootprint {
        x: DabSpan {
            first_tile: 5,
            local_centers: vec![3],
        },
        y: DabSpan {
            first_tile: 2,
            local_centers: vec![3],
        },
        pressure: bits(1.0),
    };
    assert_eq!(
        map_chunk_dabs(&vec![elsewhere], &tiles, &addresses, layout, 4),
        Err(DabMappingFault::UnboundTile {
            coordinate: BufferTileCoordinate {
                tile_x: 5,
                tile_y: 2
            }
        })
    );
}

fn merge_op(output_slot: u16) -> GpuMergeOp {
    GpuMergeOp {
        base_tile: None,
        stroke_tile: GpuTileRef {
            atlas_layer: 0,
            tile_index: 0,
        },
        output_tile: GpuTileRef {
            atlas_layer: 0,
            tile_index: output_slot,
        },
        blend_mode: BlendMode::Multiply,
        opacity: bits(0.5),
        op_trace_id: 40,
    }
}

fn merge_atlases() -> MergeAtlases {
    let layout = TileAtlasLayout {
        tiles_per_row: 2,
        tiles_per_column: 2,
        atlas_width: 2 * TILE_STRIDE,
        atlas_height: 2 * TILE_STRIDE,
    };
    MergeAtlases {
        layer_layout: layout,
        layer_count: 1,
        stroke_layout: layout,
        stroke_count: 1,
    }
}

fn plan_merge(renderer: &mut Renderer, id: u64, ops: Vec<GpuMergeOp>) {
    renderer
        .enqueue_planned_merge(
            StrokeExecutionReceipt {
                receipt_id: StrokeExecutionReceiptId(id),
                stroke_session_id: id,
                tx_token: id,
                program_revision: None,
            },
            ops,
            MergePlanMeta {
                stroke_session_id: id,
                tx_token: id,
                program_revision: None,
            },
        )
        .unwrap();
}

#[test]
fn merges_go_to_the_device_and_come_back() {
    let mut renderer = renderer();
    plan_merge(&mut renderer, 1, vec![merge_op(3)]);
    let submission = renderer.submit_pending_merges(5, 4, merge_atlases());
    assert_eq!(submission.steps.len(), 1);
    assert_eq!(submission.steps[0].output.origin.x, TILE_STRIDE);
    assert_eq!(submission.steps[0].output.origin.y, TILE_STRIDE);
    assert_eq!(submission.steps[0].blend_mode, 1);
    assert_eq!(submission.result.unwrap().receipt_ids.len(), 1);
    let quiet = |signal: CompletionSignal| DevicePoll {
        poll_error: None,
        device_lost: vec![],
        uncaptured_errors: vec![],
        signals: vec![signal],
    };
    let nothing = renderer
        .poll_completion_notices(6, quiet(CompletionSignal::NotYet))
        .unwrap();
    assert!(nothing.is_empty());
    let notices = renderer
        .poll_completion_notices(7, quiet(CompletionSignal::Done))
        .unwrap();
    assert_eq!(notices.len(), 1);
    renderer.ack_merge_result(notices[0].clone()).unwrap();
    assert_eq!(renderer.take_succeeded_receipts().len(), 1);
    assert!(renderer.take_failed_receipts().is_empty());
    assert_eq!(renderer.drain_receipt_progress_events(8).len(), 2);
    renderer
        .ack_receipt_terminal_state(
            StrokeExecutionReceiptId(1),
            ReceiptTerminalState::Finalized,
        )
        .unwrap();
}

#[test]
fn merges_outside_the_atlas_stay_planned() {
    let mut renderer = renderer();
    plan_merge(&mut renderer, 1, vec![merge_op(2), merge_op(9)]);
    let submission = renderer.submit_pending_merges(5, 4, merge_atlases());
    assert_eq!(submission.steps.len(), 1);
    assert!(matches!(
        submission.result,
        Err(MergeSubmitError::InvalidGpuMergeOp {
            op_trace_id: 40,
            tile_ref_role: Some(MergeTileRefRole::Output),
            ..
        })
    ));
    assert_eq!(renderer.merge_orchestrator.pending_receipt_count(), 1);
    let refused = renderer.submit_pending_merges(5, 0, merge_atlases());
    assert_eq!(refused.result, Err(MergeSubmitError::ZeroBudget));
}

#[test]
fn timing_slots_take_turns() {
    let mut renderer = renderer();
    assert_eq!(renderer.gpu_timing.reserve_gpu_timing_slot(4), Some(1));
    renderer.gpu_timing.note_submitted(Some(1), 4);
    assert_eq!(renderer.gpu_timing.reserve_gpu_timing_slot(7), None);
    let pending = vec![TimingMapEvent::Pending; 3];
    assert_eq!(
        renderer.take_latest_gpu_timing_report(&pending),
        (None, vec![1])
    );
    let mut ready = pending.clone();
    ready[1] = TimingMapEvent::Ready {
        gpu_time_micros: Some(250),
    };
    let (report, to_map) = renderer.take_latest_gpu_timing_report(&ready);
    let report = report.unwrap();
    assert_eq!((report.frame_id, report.gpu_time_micros), (4, 250));
    assert!(to_map.is_empty());
    assert_eq!(renderer.gpu_timing.reserve_gpu_timing_slot(7), Some(1));
    assert_eq!(elapsed_ticks(&vec![5]), None);
    assert_eq!(elapsed_ticks(&vec![5, 9]), Some(4));
    assert_eq!(elapsed_ticks(&vec![9, 5]), Some(0));
    let mut mapped = 700u64.to_ne_bytes().to_vec();
    mapped.extend(1_000u64.to_ne_bytes());
    assert_eq!(elapsed_ticks_of_bytes(&mapped), Some(300));
    assert_eq!(elapsed_ticks_of_bytes(&mapped[..8].to_vec()), None);
    assert_eq!(timing_query_indices(2), (4, 5));
}

#[test]
fn submitted_slots_are_mapped_in_order() {
    let mut renderer = Renderer::new(640, 480, true, 4);
    for frame_id in 0..4 {
        assert!(renderer.gpu_timing.reserve_gpu_timing_slot(frame_id).is_some());
    }
    renderer.gpu_timing.note_submitted(Some(3), 7);
    renderer.gpu_timing.note_submitted(Some(0), 8);
    renderer.gpu_timing.note_submitted(Some(2), 6);
    let pending = vec![TimingMapEvent::Pending; 4];
    assert_eq!(
        renderer.take_latest_gpu_timing_report(&pending),
        (None, vec![0, 2, 3])
    );
    assert_eq!(
        renderer.take_latest_gpu_timing_report(&pending),
        (None, vec![])
    );
}

#[test]
fn instances_are_drawn_in_runs_of_one_blend_mode() {
    let instance = |tile_x: u32, blend_mode: BlendMode| TileDrawInstance {
        blend_mode,
        tile: TileInstanceGpu {
            document_x: tile_x * TILE_IMAGE,
            document_y: 0,
            atlas_layer: 0,
            tile_index: tile_x,
        },
    };
    let all = vec![
        instance(0, BlendMode::Normal),
        instance(1, BlendMode::Normal),
        instance(2, BlendMode::Multiply),
        instance(3, BlendMode::Normal),
    ];
    assert_eq!(
        draw_instance_runs(
            &all,
            TileCompositeSpace::Slot,
            RenderStepSupportMatrix::current_executable_semantics()
        ),
        vec![
            DrawRun {
                pipeline: CompositePipeline::AlphaSlot,
                start: 0,
                end: 2
            },
            DrawRun {
                pipeline: CompositePipeline::MultiplySlot,
                start: 2,
                end: 3
            },
            DrawRun {
                pipeline: CompositePipeline::AlphaSlot,
                start: 3,
                end: 4
            },
        ]
    );
    let mut visible = KeySet::new();
    visible.insert(coord(2, 0));
    let shown = resolve_effective_draw_instances(&all, Some(&visible));
    assert_eq!(shown, vec![all[2]]);
    assert_eq!(resolve_effective_draw_instances(&all, None).len(), 4);
    assert_eq!(duplicated_tile_coord(&all), None);
    let doubled = vec![all[0], all[1], all[0]];
    assert_eq!(duplicated_tile_coord(&doubled), Some(2));
    assert_eq!(tile_instance_capacity(5, 8, 256), Some(8));
    assert_eq!(tile_instance_capacity(9, 8, 256), Some(256));
    assert_eq!(tile_instance_capacity(300, 256, 256), Some(512));
    assert_eq!(tile_instance_capacity(usize::MAX, 1, 1), None);
}

#[test]
fn group_tiles_are_copied_slot_by_slot() {
    let layout = TileAtlasLayout {
        tiles_per_row: 2,
        tiles_per_column: 2,
        atlas_width: 2 * TILE_STRIDE,
        atlas_height: 2 * TILE_STRIDE,
    };
    let copy = copy_group_tile_from_texture(
        coord(3, 1),
        TileAddress {
            atlas_layer: 7,
            tile_index: 2,
        },
        layout,
    );
    assert_eq!((copy.source.x, copy.source.y), (384, 128));
    assert_eq!((copy.destination.x, copy.destination.y), (0, 128));
    assert_eq!(copy.destination_layer, 7);
}

#[test]
fn matrices_become_bytes_row_by_row() {
    let mut matrix = identity_matrix();
    matrix[1] = bits(0.5);
    let bytes = words(&matrix_bytes(&matrix));
    assert_eq!(bytes.len(), 16);
    assert_eq!(
        bytes[..6].to_vec(),
        vec![bits(1.0).0, bits(0.5).0, 0, 0, 0, bits(1.0).0]
    );
}

#[test]
fn tiles_of_a_released_group_can_be_used_again() {
    let extent = group_cache_extent_from_document_size(2 * TILE_IMAGE, TILE_IMAGE);
    let mut entry = create_group_target_cache_entry(extent);
    let address = |tile_index: u16| TileAddress {
        atlas_layer: 0,
        tile_index,
    };
    let key = |slot: u32| TileKey::from_parts(9, 0, slot);
    let mut tiles = GroupTiles {
        addresses: KeyMap::new(),
        fresh: VecDeque::from(vec![FreshTile {
            key: key(0),
            address: address(0),
        }]),
    };
    tiles.release_group_cache_entry(&entry);
    assert_eq!(tiles.fresh.len(), 1);
    tiles.addresses.insert(key(1), address(1));
    tiles.addresses.insert(key(2), address(2));
    entry.image.set_tile(coord(1, 0), key(2));
    tiles.release_group_cache_entry(&entry);
    assert!(tiles.addresses.get(key(2)).is_none());
    assert!(tiles.addresses.get(key(1)).is_some());
    assert_eq!(
        tiles.fresh.back(),
        Some(&FreshTile {
            key: key(2),
            address: address(2)
        })
    );
    assert_eq!(tiles.fresh.len(), 2);
}
