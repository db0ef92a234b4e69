//! What a draw with a brush and the other work of a frame ask of the GPU, in terms
//! of the tiles that the commands name.
use vstd::prelude::*;

use crate::gpu_runtime::atlas_runtime::{BackendBinding, TextureFormat};
use crate::gpu_runtime::brush_executor::{
    AtlasViewChoice, BrushContext, BrushDrawPlan, BrushShaderParams, WgpuBrushExecutorError,
};
use crate::gpu_runtime::brush_runtime::{
    BrushDrawInputShape, BrushGpuDispatchError, BrushRegistryError, LayoutsModel,
};
use crate::gpu_runtime::commands::{
    DrawOp, GpuCmdMsg, MaterializeParametricCmd, NodeTile, RenderCmd, RenderSource, WriteOp,
};
use crate::gpu_runtime::context::GpuFeatures;
use crate::gpu_runtime::frame_batch::{FrameBatchError, GpuWork};
use crate::gpu_runtime::render_executor::CompositeParams;
use crate::gpu_runtime::render_passes::{RenderExecutorError, RenderParams};
use crate::scalar::FloatBits;
use crate::tiles::TileKey;

verus! {

/// The tile that a draw reads: that of the image it refers to, or its own.
pub open spec fn read_tile(op: DrawOp) -> TileKey {
    if op.ref_image is Some {
        op.ref_image->0.tile_key
    } else {
        op.tile_key
    }
}

/// The plan does what the draw asks for: it draws on the draw's tile with the
/// brush's shader, reads the tile of the image that the draw refers to, or its own,
/// and the tile under the drawn one if there is one.
pub open spec fn draws(
    brushes: Map<u64, BrushContext>,
    backends: Seq<BackendBinding>,
    op: DrawOp,
    plan: BrushDrawPlan,
) -> bool {
    let context = brushes[op.brush_id.0];
    let params = plan.params;
    let has_under = op.origin_tile != TileKey::nothing()
        && crate::gpu_runtime::render_laws::registered(backends, op.origin_tile);
    &&& crate::gpu_runtime::render_laws::lies_at(backends, op.tile_key, plan.target)
    &&& (params.tile_origin_x, params.tile_origin_y) == plan.target.address.texel_offset
    &&& params.tile_layer == plan.target.address.layer
    &&& params.tile_size_x == 128
    &&& params.tile_size_y == 128
    &&& crate::gpu_runtime::render_laws::lies_at(
        backends,
        read_tile(op),
        crate::gpu_runtime::render_laws::at_corner(
            read_tile(op).backend,
            plan.target.format,
            params.src_tile_layer,
            params.src_tile_origin_x,
            params.src_tile_origin_y,
        ),
    )
    &&& plan.source_view == if op.ref_image is Some {
        AtlasViewChoice::Backend(op.ref_image->0.tile_key.backend)
    } else {
        AtlasViewChoice::StandIn
    }
    &&& if has_under {
        &&& params.has_cache_tile == 1
        &&& crate::gpu_runtime::render_laws::lies_at(
            backends,
            op.origin_tile,
            crate::gpu_runtime::render_laws::at_corner(
                op.origin_tile.backend,
                backends[op.origin_tile.backend as int].format,
                params.cache_tile_layer,
                params.cache_tile_origin_x,
                params.cache_tile_origin_y,
            ),
        )
    } else {
        &&& params.has_cache_tile == 0
        &&& params.cache_tile_layer == 0
        &&& params.cache_tile_origin_x == 0
        &&& params.cache_tile_origin_y == 0
    }
    &&& plan.cache_view == if has_under && context.cache_backend_id is Some {
        AtlasViewChoice::Backend(context.cache_backend_id->0)
    } else {
        AtlasViewChoice::StandIn
    }
    &&& op.input@.len() <= u32::MAX ==> params.input_len == op.input@.len()
    &&& params.pad1 == 0
    &&& params.pad2 == 0
    &&& plan.blend_mode == op.blend_mode
    &&& plan.pipeline == context.pipeline
    &&& plan.build_alpha == !context.alpha_built
    &&& plan.build_replace == !context.replace_built
}

/// The format of the cache that a brush reads.
pub open spec fn read_cache_format(
    backends: Seq<BackendBinding>,
    context: BrushContext,
) -> TextureFormat {
    if context.cache_backend_id is Some {
        backends[context.cache_backend_id->0 as int].format
    } else {
        TextureFormat::Rgba8Unorm
    }
}

/// A draw is planned exactly if its brush is configured, the backends of its target,
/// of the tile that it reads and of the brush's cache are registered, the first two
/// have one format, and no depths are read; then it does what is asked for. Otherwise
/// the error says which of these is missing.
pub proof fn lemma_draws_are_planned_as_asked(
    brushes: Map<u64, BrushContext>,
    backends: Seq<BackendBinding>,
    features: GpuFeatures,
    op: DrawOp,
)
    requires
        crate::gpu_runtime::render_laws::all_addressable(backends),
    ensures
        ({
            let context = brushes[op.brush_id.0];
            let configured = op.brush_id.0 <= usize::MAX && brushes.contains_key(op.brush_id.0);
            let target = crate::gpu_runtime::render_laws::registered(backends, op.tile_key);
            let source = crate::gpu_runtime::render_laws::registered(backends, read_tile(op));
            let target_format = backends[op.tile_key.backend as int].format;
            let source_format = backends[read_tile(op).backend as int].format;
            let cache = context.cache_backend_id is Some ==> context.cache_backend_id->0
                < backends.len();
            match crate::gpu_runtime::brush_executor::planned_draw(
                brushes,
                backends,
                features,
                op,
            ) {
                Ok(plan) => {
                    &&& configured
                    &&& target
                    &&& source
                    &&& source_format == target_format
                    &&& cache
                    &&& source_format !is Depth32Float
                    &&& read_cache_format(backends, context) !is Depth32Float
                    &&& draws(brushes, backends, op, plan)
                },
                Err(WgpuBrushExecutorError::BrushIdOutOfRange { brush_id }) => brush_id
                    == op.brush_id && op.brush_id.0 > usize::MAX,
                Err(WgpuBrushExecutorError::BrushNotConfigured { brush_id }) => brush_id
                    == op.brush_id && !brushes.contains_key(op.brush_id.0),
                Err(WgpuBrushExecutorError::MissingTargetAtlasBackend { brush_id }) => brush_id
                    == op.brush_id && configured && !target,
                Err(WgpuBrushExecutorError::MissingSourceBackend { brush_id, backend_id }) => {
                    brush_id == op.brush_id && backend_id == read_tile(op).backend && configured
                        && target && !source
                },
                Err(
                    WgpuBrushExecutorError::InconsistentSourceFormat { brush_id, expected, actual },
                ) => brush_id == op.brush_id && expected == target_format && actual
                    == source_format && expected != actual,
                Err(WgpuBrushExecutorError::MissingCacheBackend { brush_id, backend_id }) => {
                    brush_id == op.brush_id && context.cache_backend_id == Some(backend_id)
                        && !cache
                },
                Err(
                    WgpuBrushExecutorError::UnsupportedAtlasSampleType { brush_id, format, .. },
                ) => brush_id == op.brush_id && format is Depth32Float && (format == source_format
                    || format == read_cache_format(backends, context)),
                Err(_) => false,
            }
        }),
{
    crate::gpu_runtime::render_laws::lemma_tiles_are_found_where_they_lie(backends, op.tile_key);
    crate::gpu_runtime::render_laws::lemma_tiles_are_found_where_they_lie(backends, read_tile(op));
    crate::gpu_runtime::render_laws::lemma_tiles_are_found_where_they_lie(
        backends,
        op.origin_tile,
    );
    if let Ok(plan) = crate::gpu_runtime::brush_executor::planned_draw(
        brushes,
        backends,
        features,
        op,
    ) {
        let place = crate::gpu_runtime::atlas_runtime::location(backends, read_tile(op))->0;
        assert(crate::gpu_runtime::render_laws::at_corner(
            read_tile(op).backend,
            plan.target.format,
            plan.params.src_tile_layer,
            plan.params.src_tile_origin_x,
            plan.params.src_tile_origin_y,
        ) == place);
        if let Some(under) = crate::gpu_runtime::atlas_runtime::location(
            backends,
            op.origin_tile,
        ) {
            assert(op.origin_tile != TileKey::nothing()
                ==> crate::gpu_runtime::render_laws::at_corner(
                op.origin_tile.backend,
                backends[op.origin_tile.backend as int].format,
                plan.params.cache_tile_layer,
                plan.params.cache_tile_origin_x,
                plan.params.cache_tile_origin_y,
            ) == under);
        }
    }
}

/// A draw is accepted exactly if its brush is among those that there are ids for,
/// has a layout, and the input has as many floats as the layout asks for; the layout
/// that it is accepted with is that of its brush.
pub proof fn lemma_draws_are_accepted_by_their_layout<E>(layouts: LayoutsModel, op: DrawOp)
    ensures
        ({
            let known = op.brush_id.0 < layouts.max_brushes;
            let registered = layouts.layouts.contains_key(op.brush_id.0);
            let layout = layouts.layouts[op.brush_id.0];
            match crate::gpu_runtime::brush_runtime::accepted_layout::<E>(layouts, op) {
                Ok(accepted) => known && registered && accepted == layout && op.input@.len()
                    == layout.float_count,
                Err(BrushGpuDispatchError::Registry(error)) => if known {
                    !registered && error == (BrushRegistryError::LayoutNotRegistered {
                        brush_id: op.brush_id,
                    })
                } else {
                    error == (BrushRegistryError::BrushIdOutOfRange { brush_id: op.brush_id })
                },
                Err(
                    BrushGpuDispatchError::InputLayoutMismatch {
                        brush_id,
                        layout: refused,
                        input_len,
                    },
                ) => known && registered && brush_id == op.brush_id && refused == layout
                    && op.input@.len() != layout.float_count && (op.input@.len() <= usize::MAX
                    ==> input_len == op.input@.len()),
                Err(BrushGpuDispatchError::Executor { .. }) => false,
            }
        }),
{
}

/// The floats of values that follow each other are counted together, and a value of
/// `n` components takes `n` floats.
pub proof fn lemma_floats_add_up(
    shapes: Seq<BrushDrawInputShape>,
    more: Seq<BrushDrawInputShape>,
)
    ensures
        crate::gpu_runtime::brush_runtime::total_floats(shapes + more)
            == crate::gpu_runtime::brush_runtime::total_floats(shapes)
            + crate::gpu_runtime::brush_runtime::total_floats(more),
        shapes.len() == 0 ==> crate::gpu_runtime::brush_runtime::total_floats(shapes) == 0,
        shapes.len() == 1 ==> crate::gpu_runtime::brush_runtime::total_floats(shapes) == (
        match shapes[0] {
            BrushDrawInputShape::F32 => 1int,
            BrushDrawInputShape::Vec2F32 => 2,
            BrushDrawInputShape::Vec3F32 => 3,
            BrushDrawInputShape::Vec4F32 => 4,
        }),
    decreases more.len(),
{
    if more.len() == 0 {
        assert(shapes + more =~= shapes);
    } else {
        assert((shapes + more).drop_last() =~= shapes + more.drop_last());
        lemma_floats_add_up(shapes, more.drop_last());
    }
    if shapes.len() == 1 {
        assert(crate::gpu_runtime::brush_runtime::total_floats(shapes.drop_last()) == 0);
    }
}

/// The error is that of a tile whose backend is not registered.
pub open spec fn is_missing(backends: Seq<BackendBinding>, key: TileKey, error: FrameBatchError) -> bool {
    !crate::gpu_runtime::render_laws::registered(backends, key) && error
        == FrameBatchError::RenderError(RenderExecutorError::MissingTileBackend { tile_key: key })
}

/// Each command asks for work of its own kind, on the tiles that it names, and fails
/// only with an error of its own kind. Only draws, copies, writes, compositions and
/// clears ask for work.
pub proof fn lemma_commands_ask_for_their_work(
    backends: Seq<BackendBinding>,
    brushes: Map<u64, BrushContext>,
    layouts: LayoutsModel,
    features: GpuFeatures,
    prevalidated: bool,
    cmd: GpuCmdMsg,
)
    requires
        crate::gpu_runtime::render_laws::all_addressable(backends),
    ensures
        ({
            let work = crate::gpu_runtime::frame_batch::command_work(
                backends,
                brushes,
                layouts,
                features,
                prevalidated,
                cmd,
            );
            match cmd {
                GpuCmdMsg::DrawOp(op) => match work {
                    Ok(GpuWork::Draw(plan)) => draws(brushes, backends, op, plan) && (prevalidated
                        || (layouts.layouts.contains_key(op.brush_id.0)
                        && layouts.layouts[op.brush_id.0].float_count == op.input@.len())),
                    Ok(_) => false,
                    Err(FrameBatchError::BrushError(_)) => true,
                    Err(_) => false,
                },
                GpuCmdMsg::CopyOp(op) => match work {
                    Ok(GpuWork::Copy(copy)) => crate::gpu_runtime::render_laws::lies_at(
                        backends,
                        op.src_tile_key,
                        copy.source,
                    ) && crate::gpu_runtime::render_laws::lies_at(
                        backends,
                        op.dst_tile_key,
                        copy.target,
                    ),
                    Ok(_) => false,
                    Err(error) => is_missing(backends, op.src_tile_key, error) || is_missing(
                        backends,
                        op.dst_tile_key,
                        error,
                    ),
                },
                GpuCmdMsg::WriteOp(op) => match work {
                    Ok(GpuWork::Write(call)) => crate::gpu_runtime::tile_op_laws::writes(
                        backends,
                        call,
                        op,
                    ),
                    Ok(_) => false,
                    Err(error) => is_missing(backends, op.src_tile_key, error) || is_missing(
                        backends,
                        op.dst_tile_key,
                        error,
                    ),
                },
                GpuCmdMsg::CompositeOp(op) => match work {
                    Ok(GpuWork::Composite(call)) => crate::gpu_runtime::render_laws::lies_at(
                        backends,
                        op.base_tile_key,
                        call.base,
                    ) && crate::gpu_runtime::render_laws::lies_at(
                        backends,
                        op.overlay_tile_key,
                        call.overlay,
                    ) && crate::gpu_runtime::render_laws::lies_at(
                        backends,
                        op.dst_tile_key,
                        call.target,
                    ) && call.params.opacity == op.opacity,
                    Ok(_) => false,
                    Err(error) => is_missing(backends, op.base_tile_key, error) || is_missing(
                        backends,
                        op.overlay_tile_key,
                        error,
                    ) || is_missing(backends, op.dst_tile_key, error),
                },
                GpuCmdMsg::ClearOp(op) => match work {
                    Ok(GpuWork::Clear(place)) => crate::gpu_runtime::render_laws::lies_at(
                        backends,
                        op.tile_key,
                        place,
                    ),
                    Ok(_) => false,
                    Err(error) => is_missing(backends, op.tile_key, error),
                },
                GpuCmdMsg::RenderTreeUpdated | GpuCmdMsg::TileSlotKeyUpdate => work == Ok::<
                    GpuWork,
                    FrameBatchError,
                >(GpuWork::Nothing),
            }
        }),
{
    match cmd {
        GpuCmdMsg::DrawOp(op) => {
            lemma_draws_are_planned_as_asked(brushes, backends, features, op);
            lemma_draws_are_accepted_by_their_layout::<WgpuBrushExecutorError>(layouts, op);
        },
        GpuCmdMsg::CopyOp(op) => {
            crate::gpu_runtime::tile_op_laws::lemma_tiles_are_copied_as_asked(backends, op);
        },
        GpuCmdMsg::WriteOp(op) => {
            crate::gpu_runtime::tile_op_laws::lemma_tiles_are_written_as_asked(backends, op);
        },
        GpuCmdMsg::CompositeOp(op) => {
            crate::gpu_runtime::tile_op_laws::lemma_tiles_are_composed_as_asked(backends, op);
        },
        GpuCmdMsg::ClearOp(op) => {
            crate::gpu_runtime::render_laws::lemma_tiles_are_found_where_they_lie(
                backends,
                op.tile_key,
            );
        },
        _ => {},
    }
}

/// The tile that a write, a composition or a clear is on.
pub open spec fn pipeline_target(cmd: GpuCmdMsg) -> Option<TileKey> {
    match cmd {
        GpuCmdMsg::WriteOp(op) => Some(op.dst_tile_key),
        GpuCmdMsg::CompositeOp(op) => Some(op.dst_tile_key),
        GpuCmdMsg::ClearOp(op) => Some(op.tile_key),
        _ => None,
    }
}

/// After a write, a composition or a clear that succeeds the pipelines are in the
/// format of its target; any other command, and one that fails, leaves them as they
/// are.
pub proof fn lemma_pipelines_follow_the_target(
    backends: Seq<BackendBinding>,
    brushes: Map<u64, BrushContext>,
    layouts: LayoutsModel,
    features: GpuFeatures,
    prevalidated: bool,
    format: Option<TextureFormat>,
    cmd: GpuCmdMsg,
)
    requires
        crate::gpu_runtime::render_laws::all_addressable(backends),
    ensures
        ({
            let work = crate::gpu_runtime::frame_batch::command_work(
                backends,
                brushes,
                layouts,
                features,
                prevalidated,
                cmd,
            );
            crate::gpu_runtime::frame_batch::format_after(backends, format, cmd) == (
            if pipeline_target(cmd) is Some && work is Ok {
                Some(backends[pipeline_target(cmd)->0.backend as int].format)
            } else {
                format
            })
        }),
{
    lemma_commands_ask_for_their_work(
        backends,
        brushes,
        layouts,
        features,
        prevalidated,
        cmd,
    );
}

/// A command that asks for work is noted as changing the tile where the work is
/// done: the place that the GPU draws, copies, writes, composes or clears at is that
/// of the noted tile.
pub proof fn lemma_changed_tile_is_where_the_work_is(
    backends: Seq<BackendBinding>,
    brushes: Map<u64, BrushContext>,
    layouts: LayoutsModel,
    features: GpuFeatures,
    prevalidated: bool,
    cmd: GpuCmdMsg,
)
    requires
        crate::gpu_runtime::render_laws::all_addressable(backends),
    ensures
        ({
            let changed = crate::gpu_runtime::frame_batch::changed_tile(cmd);
            match crate::gpu_runtime::frame_batch::command_work(
                backends,
                brushes,
                layouts,
                features,
                prevalidated,
                cmd,
            ) {
                Ok(GpuWork::Draw(plan)) => changed is Some
                    && crate::gpu_runtime::render_laws::lies_at(
                    backends,
                    changed->0,
                    plan.target,
                ),
                Ok(GpuWork::Copy(copy)) => changed is Some
                    && crate::gpu_runtime::render_laws::lies_at(backends, changed->0, copy.target),
                Ok(GpuWork::Write(call)) => changed is Some
                    && crate::gpu_runtime::render_laws::lies_at(
                    backends,
                    changed->0,
                    crate::gpu_runtime::render_laws::at_corner(
                        call.pass_key.backend_id,
                        call.pass_key.format,
                        call.pass_key.layer,
                        call.scissor_x,
                        call.scissor_y,
                    ),
                ),
                Ok(GpuWork::Composite(call)) => changed is Some
                    && crate::gpu_runtime::render_laws::lies_at(backends, changed->0, call.target),
                Ok(GpuWork::Clear(place)) => changed is Some
                    && crate::gpu_runtime::render_laws::lies_at(backends, changed->0, place),
                Ok(GpuWork::Nothing) => changed is None,
                Err(_) => true,
            }
        }),
{
    lemma_commands_ask_for_their_work(
        backends,
        brushes,
        layouts,
        features,
        prevalidated,
        cmd,
    );
}

/// Draws and writes that are taken together mark the tiles that each of them is on,
/// one for each and in order, and draws mark the tiles of the images too.
pub proof fn lemma_batches_mark_their_tiles(draws: Seq<DrawOp>, writes: Seq<WriteOp>, tile: NodeTile)
    ensures
        crate::gpu_runtime::frame_batch::drawn_tiles(draws).len() == draws.len(),
        forall|i: int|
            0 <= i < draws.len() ==> #[trigger] crate::gpu_runtime::frame_batch::drawn_tiles(
                draws,
            )[i] == draws[i].tile_key,
        crate::gpu_runtime::frame_batch::written_tiles(writes).len() == writes.len(),
        forall|i: int|
            0 <= i < writes.len() ==> #[trigger] crate::gpu_runtime::frame_batch::written_tiles(
                writes,
            )[i] == writes[i].dst_tile_key,
        crate::gpu_runtime::frame_batch::drawn_image_tiles(draws).contains(tile) <==> exists|
            i: int,
        |
            0 <= i < draws.len() && (#[trigger] draws[i]).node_id == tile.node_id
                && draws[i].tile_index == tile.tile_index,
{
    let tiles = draws.map_values(
        |op: DrawOp| NodeTile { node_id: op.node_id, tile_index: op.tile_index },
    );
    assert(crate::gpu_runtime::frame_batch::drawn_image_tiles(draws) == tiles.to_set());
    if tiles.contains(tile) {
        let i = tiles.index_of(tile);
        assert(draws[i].node_id == tile.node_id && draws[i].tile_index == tile.tile_index);
    }
    if exists|i: int|
        0 <= i < draws.len() && (#[trigger] draws[i]).node_id == tile.node_id
            && draws[i].tile_index == tile.tile_index {
        let i = choose|i: int|
            0 <= i < draws.len() && (#[trigger] draws[i]).node_id == tile.node_id
                && draws[i].tile_index == tile.tile_index;
        assert(tiles[i] == tile);
    }
}

/// After meshes are drawn exactly their targets are marked, besides what was, and but
/// for the key that names no tile.
pub proof fn lemma_meshes_mark_their_tiles(
    dirty: Set<TileKey>,
    cmds: Seq<MaterializeParametricCmd>,
    key: TileKey,
)
    ensures
        crate::gpu_runtime::frame_batch::meshes_marked(dirty, cmds).contains(key)
            <==> dirty.contains(key) || (key != TileKey::nothing() && exists|k: int|
            0 <= k < cmds.len() && (#[trigger] cmds[k]).dst_tile_keys@.contains(key)),
    decreases cmds.len(),
{
    if cmds.len() > 0 {
        let shorter = cmds.drop_last();
        lemma_meshes_mark_their_tiles(dirty, shorter, key);
        crate::gpu_runtime::dirty::lemma_marks_each_tile(
            crate::gpu_runtime::frame_batch::meshes_marked(dirty, shorter),
            cmds.last().dst_tile_keys@,
            key,
        );
        if exists|k: int|
            0 <= k < shorter.len() && (#[trigger] shorter[k]).dst_tile_keys@.contains(key) {
            let k = choose|k: int|
                0 <= k < shorter.len() && (#[trigger] shorter[k]).dst_tile_keys@.contains(key);
            assert(cmds[k].dst_tile_keys@.contains(key));
        }
        if exists|k: int| 0 <= k < cmds.len() && (#[trigger] cmds[k]).dst_tile_keys@.contains(key) {
            let k = choose|k: int|
                0 <= k < cmds.len() && (#[trigger] cmds[k]).dst_tile_keys@.contains(key);
            if k < shorter.len() {
                assert(shorter[k].dst_tile_keys@.contains(key));
            }
        }
        assert(cmds[cmds.len() - 1] == cmds.last());
    }
}

/// The sum of some numbers.
pub open spec fn sum(numbers: Seq<int>) -> int
    decreases numbers.len(),
{
    if numbers.len() == 0 {
        0
    } else {
        sum(numbers.drop_last()) + numbers.last()
    }
}

/// The tiles of all layers of a command.
pub open spec fn layer_tiles(cmd: RenderCmd) -> int {
    sum(Seq::new(cmd.from@.len(), |i: int| cmd.from@[i].tile_keys@.len() as int))
}

/// The counts of a frame are those of its commands: the targets of all meshes, the
/// targets of all render commands, and the tiles of all layers of these.
pub proof fn lemma_counts_are_sums(
    meshes: Seq<MaterializeParametricCmd>,
    cmds: Seq<RenderCmd>,
    sources: Seq<RenderSource>,
)
    ensures
        crate::gpu_runtime::frame_batch::parametric_tile_count(meshes) == sum(
            Seq::new(meshes.len(), |k: int| meshes[k].dst_tile_keys@.len() as int),
        ),
        crate::gpu_runtime::frame_batch::render_tile_count(cmds) == sum(
            Seq::new(cmds.len(), |k: int| cmds[k].to@.len() as int),
        ),
        crate::gpu_runtime::frame_batch::source_tile_count(sources) == sum(
            Seq::new(sources.len(), |k: int| sources[k].tile_keys@.len() as int),
        ),
        crate::gpu_runtime::frame_batch::render_source_count(cmds) == sum(
            Seq::new(cmds.len(), |k: int| layer_tiles(cmds[k])),
        ),
    decreases meshes.len() + cmds.len() + sources.len(),
{
    if meshes.len() > 0 {
        lemma_counts_are_sums(meshes.drop_last(), Seq::empty(), Seq::empty());
        assert(Seq::new(meshes.len(), |k: int| meshes[k].dst_tile_keys@.len() as int).drop_last()
            =~= Seq::new(
            meshes.drop_last().len(),
            |k: int| meshes.drop_last()[k].dst_tile_keys@.len() as int,
        ));
    }
    if sources.len() > 0 {
        lemma_counts_are_sums(Seq::empty(), Seq::empty(), sources.drop_last());
        assert(Seq::new(sources.len(), |k: int| sources[k].tile_keys@.len() as int).drop_last()
            =~= Seq::new(
            sources.drop_last().len(),
            |k: int| sources.drop_last()[k].tile_keys@.len() as int,
        ));
    }
    if cmds.len() > 0 {
        lemma_counts_are_sums(Seq::empty(), cmds.drop_last(), Seq::empty());
        lemma_source_tiles_are_summed(cmds.last().from@);
        assert(Seq::new(cmds.len(), |k: int| cmds[k].to@.len() as int).drop_last() =~= Seq::new(
            cmds.drop_last().len(),
            |k: int| cmds.drop_last()[k].to@.len() as int,
        ));
        assert(Seq::new(cmds.len(), |k: int| layer_tiles(cmds[k])).drop_last() =~= Seq::new(
            cmds.drop_last().len(),
            |k: int| layer_tiles(cmds.drop_last()[k]),
        ));
    }
}

proof fn lemma_source_tiles_are_summed(sources: Seq<RenderSource>)
    ensures
        crate::gpu_runtime::frame_batch::source_tile_count(sources) == sum(
            Seq::new(sources.len(), |k: int| sources[k].tile_keys@.len() as int),
        ),
    decreases sources.len(),
{
    if sources.len() > 0 {
        lemma_source_tiles_are_summed(sources.drop_last());
        assert(Seq::new(sources.len(), |k: int| sources[k].tile_keys@.len() as int).drop_last()
            =~= Seq::new(
            sources.drop_last().len(),
            |k: int| sources.drop_last()[k].tile_keys@.len() as int,
        ));
    }
}

/// Each count of a frame is the one that its name says.
pub proof fn lemma_stats_hold_the_counts(
    meshes: Seq<MaterializeParametricCmd>,
    cmds: Seq<RenderCmd>,
)
    requires
        crate::gpu_runtime::frame_batch::countable(meshes, cmds),
        meshes.len() <= usize::MAX,
        cmds.len() <= usize::MAX,
    ensures
        ({
            let stats = crate::gpu_runtime::frame_batch::counted(meshes, cmds);
            &&& stats.parametric_cmd_count == meshes.len()
            &&& stats.parametric_dst_tile_count == sum(
                Seq::new(meshes.len(), |k: int| meshes[k].dst_tile_keys@.len() as int),
            )
            &&& stats.render_cmd_count == cmds.len()
            &&& stats.render_dst_tile_count == sum(
                Seq::new(cmds.len(), |k: int| cmds[k].to@.len() as int),
            )
            &&& stats.render_source_count == sum(
                Seq::new(cmds.len(), |k: int| layer_tiles(cmds[k])),
            )
        }),
{
    lemma_counts_are_sums(meshes, cmds, Seq::empty());
    lemma_sum_is_natural(
        Seq::new(meshes.len(), |k: int| meshes[k].dst_tile_keys@.len() as int),
    );
    lemma_sum_is_natural(Seq::new(cmds.len(), |k: int| cmds[k].to@.len() as int));
    let layers = Seq::new(cmds.len(), |k: int| layer_tiles(cmds[k]));
    assert forall|k: int| 0 <= k < layers.len() implies #[trigger] layers[k] >= 0 by {
        let from = cmds[k].from@;
        lemma_sum_is_natural(Seq::new(from.len(), |i: int| from[i].tile_keys@.len() as int));
    }
    lemma_sum_is_natural(layers);
}

proof fn lemma_sum_is_natural(numbers: Seq<int>)
    requires
        forall|i: int| 0 <= i < numbers.len() ==> #[trigger] numbers[i] >= 0,
    ensures
        sum(numbers) >= 0,
    decreases numbers.len(),
{
    if numbers.len() > 0 {
        lemma_sum_is_natural(numbers.drop_last());
    }
}

/// Where the words of the uniform buffers are: each shader reads them at these
/// places.
pub proof fn lemma_words_are_where_the_shaders_read_them(
    render: RenderParams,
    composite: CompositeParams,
    brush: BrushShaderParams,
    input: Seq<FloatBits>,
)
    ensures
        composite.words().len() == 8,
        (composite.words()[0], composite.words()[1]) == (composite.base_x, composite.base_y),
        (composite.words()[2], composite.words()[3]) == (
            composite.overlay_x,
            composite.overlay_y,
        ),
        composite.words()[4] == composite.opacity.0,
        brush.words().len() == 15,
        brush.words()[0] == brush.input_len,
        (brush.words()[1], brush.words()[2], brush.words()[3]) == (
            brush.tile_origin_x,
            brush.tile_origin_y,
            brush.tile_layer,
        ),
        (brush.words()[4], brush.words()[5]) == (brush.tile_size_x, brush.tile_size_y),
        (brush.words()[6], brush.words()[7], brush.words()[8]) == (
            brush.src_tile_origin_x,
            brush.src_tile_origin_y,
            brush.src_tile_layer,
        ),
        (brush.words()[9], brush.words()[10], brush.words()[11]) == (
            brush.cache_tile_origin_x,
            brush.cache_tile_origin_y,
            brush.cache_tile_layer,
        ),
        brush.words()[12] == brush.has_cache_tile,
        render.words().len() == 12,
        (render.words()[0], render.words()[1], render.words()[2]) == (
            render.src_layer,
            render.src_x,
            render.src_y,
        ),
        (render.words()[3], render.words()[4], render.words()[5]) == (
            render.origin_layer,
            render.origin_x,
            render.origin_y,
        ),
        (render.words()[6], render.words()[7]) == (render.has_origin, render.has_tint),
        (render.words()[8], render.words()[9], render.words()[10]) == (
            render.tint_r.0,
            render.tint_g.0,
            render.tint_b.0,
        ),
        render.words()[11] == render.opacity.0,
        input.len() == 0 ==> crate::gpu_runtime::brush_executor::input_words(input).len() == 1
            && crate::gpu_runtime::brush_executor::input_words(input)[0] == 0,
        input.len() > 0 ==> crate::gpu_runtime::brush_executor::input_words(input).len()
            == input.len() && forall|i: int|
            0 <= i < input.len() ==> #[trigger] crate::gpu_runtime::brush_executor::input_words(
                input,
            )[i] == input[i].0,
{
}

/// A draw whose input was looked at before is planned without looking at it again. Any
/// other is planned only if its brush has a layout for as many numbers, and fails without
/// being planned otherwise.
pub proof fn lemma_input_is_looked_at_once(
    backends: Seq<BackendBinding>,
    brushes: Map<u64, BrushContext>,
    layouts: LayoutsModel,
    features: GpuFeatures,
    prevalidated: bool,
    op: DrawOp,
)
    ensures
        ({
            let work = crate::gpu_runtime::frame_batch::command_work(
                backends,
                brushes,
                layouts,
                features,
                prevalidated,
                GpuCmdMsg::DrawOp(op),
            );
            let plan = crate::gpu_runtime::brush_executor::planned_draw(
                brushes,
                backends,
                features,
                op,
            );
            let welcome = prevalidated || (op.brush_id.0 < layouts.max_brushes
                && layouts.layouts.contains_key(op.brush_id.0)
                && layouts.layouts[op.brush_id.0].float_count == op.input@.len());
            &&& welcome && plan is Ok ==> work == Ok::<GpuWork, FrameBatchError>(
                GpuWork::Draw(plan->Ok_0),
            )
            &&& welcome && plan is Err ==> work == Err::<GpuWork, FrameBatchError>(
                FrameBatchError::BrushError(
                    BrushGpuDispatchError::Executor {
                        brush_id: op.brush_id,
                        source: plan->Err_0,
                    },
                ),
            )
            &&& !welcome ==> work is Err && work->Err_0 is BrushError && !(
            work->Err_0->BrushError_0 is Executor)
        }),
{
}

} // verus!
