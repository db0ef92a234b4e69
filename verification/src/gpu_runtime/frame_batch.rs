//! The commands of one frame: each is turned into work for the GPU, the tiles and
//! images that it changes are marked, and the frame is submitted if there was any
//! work.
use vstd::prelude::*;

use crate::gpu_runtime::atlas_runtime::{
    AtlasResolvedAddress, AtlasStorageRuntime, BackendBinding, TextureFormat,
};
use crate::gpu_runtime::brush_executor::{
    BrushContext, BrushDrawPlan, WgpuBrushExecutor, WgpuBrushExecutorError,
};
use crate::gpu_runtime::brush_runtime::{
    check_draw_input, BrushDrawInputLayout, BrushGpuDispatchError, BrushLayoutRegistry,
    LayoutsModel,
};
use crate::gpu_runtime::commands::{
    DrawOp, GpuCmdMsg, MaterializeParametricCmd, NodeTile, RenderCmd, RenderSource, WriteOp,
};
use crate::gpu_runtime::context::GpuFeatures;
use crate::gpu_runtime::dirty::{ImageDirtyTracker, TileDirtyTracker};
use crate::gpu_runtime::render_executor::{
    PreparedCompositeCall, PreparedWriteCall, RenderExecutor, TileCopy, WriteBatch,
};
use crate::gpu_runtime::render_passes::{ParametricPlan, RenderCmdPlan, RenderExecutorError};
use crate::tiles::TileKey;

verus! {

#[derive(Debug, Clone, Copy, PartialEq, Eq)]
pub enum FrameBatchError {
    BrushError(BrushGpuDispatchError<WgpuBrushExecutorError>),
    RenderError(RenderExecutorError),
}

/// What the GPU has to do for a command.
#[derive(Debug, PartialEq)]
pub enum GpuWork {
    Draw(BrushDrawPlan),
    Copy(TileCopy),
    Write(PreparedWriteCall),
    Composite(PreparedCompositeCall),
    Clear(AtlasResolvedAddress),
    Nothing,
}

/// What the GPU has to do for a draw. The layout of the input may have been
/// checked before.
pub open spec fn draw_work(
    backends: Seq<BackendBinding>,
    brushes: Map<u64, BrushContext>,
    layouts: LayoutsModel,
    features: GpuFeatures,
    prevalidated: bool,
    draw_op: DrawOp,
) -> Result<GpuWork, FrameBatchError> {
    let accepted = crate::gpu_runtime::brush_runtime::accepted_layout::<WgpuBrushExecutorError>(
        layouts,
        draw_op,
    );
    if !prevalidated && accepted is Err {
        Err(FrameBatchError::BrushError(accepted->Err_0))
    } else {
        match crate::gpu_runtime::brush_executor::planned_draw(
            brushes,
            backends,
            features,
            draw_op,
        ) {
            Ok(plan) => Ok(GpuWork::Draw(plan)),
            Err(source) => Err(
                FrameBatchError::BrushError(
                    BrushGpuDispatchError::Executor { brush_id: draw_op.brush_id, source },
                ),
            ),
        }
    }
}

/// The result of a command on tiles, as work for the GPU.
pub open spec fn as_work<T>(
    result: Result<T, RenderExecutorError>,
    work: spec_fn(T) -> GpuWork,
) -> Result<GpuWork, FrameBatchError> {
    match result {
        Ok(plan) => Ok(work(plan)),
        Err(error) => Err(FrameBatchError::RenderError(error)),
    }
}

/// What the GPU has to do for a command. Updates of the tree and of tile slots
/// ask for nothing.
pub open spec fn command_work(
    backends: Seq<BackendBinding>,
    brushes: Map<u64, BrushContext>,
    layouts: LayoutsModel,
    features: GpuFeatures,
    prevalidated: bool,
    cmd: GpuCmdMsg,
) -> Result<GpuWork, FrameBatchError> {
    match cmd {
        GpuCmdMsg::DrawOp(op) => draw_work(backends, brushes, layouts, features, prevalidated, op),
        GpuCmdMsg::CopyOp(op) => as_work(
            crate::gpu_runtime::render_executor::copied(backends, op),
            |plan: TileCopy| GpuWork::Copy(plan),
        ),
        GpuCmdMsg::WriteOp(op) => as_work(
            crate::gpu_runtime::render_executor::write_call(backends, op),
            |plan: PreparedWriteCall| GpuWork::Write(plan),
        ),
        GpuCmdMsg::CompositeOp(op) => as_work(
            crate::gpu_runtime::render_executor::composite_call(backends, op),
            |plan: PreparedCompositeCall| GpuWork::Composite(plan),
        ),
        GpuCmdMsg::ClearOp(op) => as_work(
            crate::gpu_runtime::render_passes::found(backends, op.tile_key),
            |plan: AtlasResolvedAddress| GpuWork::Clear(plan),
        ),
        GpuCmdMsg::RenderTreeUpdated | GpuCmdMsg::TileSlotKeyUpdate => Ok(GpuWork::Nothing),
    }
}

/// The format of the pipelines after a command: one that draws on a tile with
/// them needs that of the tile.
pub open spec fn format_after(
    backends: Seq<BackendBinding>,
    format: Option<TextureFormat>,
    cmd: GpuCmdMsg,
) -> Option<TextureFormat> {
    match cmd {
        GpuCmdMsg::WriteOp(op) => match crate::gpu_runtime::render_executor::write_call(
            backends,
            op,
        ) {
            Ok(call) => Some(call.pass_key.format),
            Err(_) => format,
        },
        GpuCmdMsg::CompositeOp(op) => match crate::gpu_runtime::render_executor::composite_call(
            backends,
            op,
        ) {
            Ok(call) => Some(call.target.format),
            Err(_) => format,
        },
        GpuCmdMsg::ClearOp(op) => match crate::gpu_runtime::render_passes::found(
            backends,
            op.tile_key,
        ) {
            Ok(target) => Some(target.format),
            Err(_) => format,
        },
        _ => format,
    }
}

/// The tile that a command changes.
pub open spec fn changed_tile(cmd: GpuCmdMsg) -> Option<TileKey> {
    match cmd {
        GpuCmdMsg::DrawOp(op) => Some(op.tile_key),
        GpuCmdMsg::CopyOp(op) => Some(op.dst_tile_key),
        GpuCmdMsg::WriteOp(op) => Some(op.dst_tile_key),
        GpuCmdMsg::CompositeOp(op) => Some(op.dst_tile_key),
        GpuCmdMsg::ClearOp(op) => Some(op.tile_key),
        GpuCmdMsg::RenderTreeUpdated | GpuCmdMsg::TileSlotKeyUpdate => None,
    }
}

/// The tiles that draws are on.
pub open spec fn drawn_tiles(ops: Seq<DrawOp>) -> Seq<TileKey> {
    ops.map_values(|op: DrawOp| op.tile_key)
}

/// The tiles that writes are on.
pub open spec fn written_tiles(ops: Seq<WriteOp>) -> Seq<TileKey> {
    ops.map_values(|op: WriteOp| op.dst_tile_key)
}

/// The image tiles that draws change.
pub open spec fn drawn_image_tiles(ops: Seq<DrawOp>) -> Set<NodeTile> {
    ops.map_values(
        |op: DrawOp| NodeTile { node_id: op.node_id, tile_index: op.tile_index },
    ).to_set()
}

/// The counts of what is rendered in a frame.
#[derive(Debug, Clone, Copy, PartialEq, Eq, Structural)]
pub struct FrameBatchPerfStats {
    pub parametric_cmd_count: usize,
    pub parametric_dst_tile_count: usize,
    pub render_cmd_count: usize,
    pub render_dst_tile_count: usize,
    pub render_source_count: usize,
}

impl Default for FrameBatchPerfStats {
    fn default() -> (stats: Self)
        ensures
            stats == (FrameBatchPerfStats {
                parametric_cmd_count: 0,
                parametric_dst_tile_count: 0,
                render_cmd_count: 0,
                render_dst_tile_count: 0,
                render_source_count: 0,
            }),
    {
        FrameBatchPerfStats {
            parametric_cmd_count: 0,
            parametric_dst_tile_count: 0,
            render_cmd_count: 0,
            render_dst_tile_count: 0,
            render_source_count: 0,
        }
    }
}

/// The tiles that meshes are drawn into.
pub open spec fn parametric_tile_count(cmds: Seq<MaterializeParametricCmd>) -> int
    decreases cmds.len(),
{
    if cmds.len() == 0 {
        0
    } else {
        parametric_tile_count(cmds.drop_last()) + cmds.last().dst_tile_keys@.len()
    }
}

/// The tiles that are rendered into.
pub open spec fn render_tile_count(cmds: Seq<RenderCmd>) -> int
    decreases cmds.len(),
{
    if cmds.len() == 0 {
        0
    } else {
        render_tile_count(cmds.drop_last()) + cmds.last().to@.len()
    }
}

/// The tiles of sources.
pub open spec fn source_tile_count(sources: Seq<RenderSource>) -> int
    decreases sources.len(),
{
    if sources.len() == 0 {
        0
    } else {
        source_tile_count(sources.drop_last()) + sources.last().tile_keys@.len()
    }
}

/// The tiles that are rendered.
pub open spec fn render_source_count(cmds: Seq<RenderCmd>) -> int
    decreases cmds.len(),
{
    if cmds.len() == 0 {
        0
    } else {
        render_source_count(cmds.drop_last()) + source_tile_count(cmds.last().from@)
    }
}

/// The counts of what is rendered can be written down.
pub open spec fn countable(
    parametric_cmds: Seq<MaterializeParametricCmd>,
    render_cmds: Seq<RenderCmd>,
) -> bool {
    &&& parametric_tile_count(parametric_cmds) <= usize::MAX
    &&& render_tile_count(render_cmds) <= usize::MAX
    &&& render_source_count(render_cmds) <= usize::MAX
}

/// The counts of what is rendered.
pub open spec fn counted(
    parametric_cmds: Seq<MaterializeParametricCmd>,
    render_cmds: Seq<RenderCmd>,
) -> FrameBatchPerfStats {
    FrameBatchPerfStats {
        parametric_cmd_count: parametric_cmds.len() as usize,
        parametric_dst_tile_count: parametric_tile_count(parametric_cmds) as usize,
        render_cmd_count: render_cmds.len() as usize,
        render_dst_tile_count: render_tile_count(render_cmds) as usize,
        render_source_count: render_source_count(render_cmds) as usize,
    }
}

proof fn lemma_parametric_count_grows(cmds: Seq<MaterializeParametricCmd>, count: int)
    requires
        0 <= count <= cmds.len(),
    ensures
        0 <= parametric_tile_count(cmds.take(count)) <= parametric_tile_count(cmds),
    decreases cmds.len(),
{
    if count == cmds.len() {
        assert(cmds.take(count) =~= cmds);
        if count > 0 {
            lemma_parametric_count_grows(cmds.drop_last(), count - 1);
        }
    } else {
        assert(cmds.drop_last().take(count) =~= cmds.take(count));
        lemma_parametric_count_grows(cmds.drop_last(), count);
    }
}

proof fn lemma_sources_count_grows(sources: Seq<RenderSource>, count: int)
    requires
        0 <= count <= sources.len(),
    ensures
        0 <= source_tile_count(sources.take(count)) <= source_tile_count(sources),
    decreases sources.len(),
{
    if count == sources.len() {
        assert(sources.take(count) =~= sources);
        if count > 0 {
            lemma_sources_count_grows(sources.drop_last(), count - 1);
        }
    } else {
        assert(sources.drop_last().take(count) =~= sources.take(count));
        lemma_sources_count_grows(sources.drop_last(), count);
    }
}

proof fn lemma_render_counts_grow(cmds: Seq<RenderCmd>, count: int)
    requires
        0 <= count <= cmds.len(),
    ensures
        0 <= render_tile_count(cmds.take(count)) <= render_tile_count(cmds),
        0 <= render_source_count(cmds.take(count)) <= render_source_count(cmds),
    decreases cmds.len(),
{
    if cmds.len() > 0 {
        lemma_sources_count_grows(cmds.last().from@, 0);
        assert(cmds.last().from@.take(0) =~= Seq::<RenderSource>::empty());
    }
    if count == cmds.len() {
        assert(cmds.take(count) =~= cmds);
        if count > 0 {
            lemma_render_counts_grow(cmds.drop_last(), count - 1);
        }
    } else {
        assert(cmds.drop_last().take(count) =~= cmds.take(count));
        lemma_render_counts_grow(cmds.drop_last(), count);
    }
}

fn count_source_tiles(sources: &Vec<RenderSource>) -> (count: usize)
    requires
        source_tile_count(sources@) <= usize::MAX,
    ensures
        count == source_tile_count(sources@),
{
    let mut count: usize = 0;
    let mut index: usize = 0;
    assert(sources@.take(0) =~= Seq::<RenderSource>::empty());
    while index < sources.len()
        invariant
            index <= sources@.len(),
            count == source_tile_count(sources@.take(index as int)),
            source_tile_count(sources@) <= usize::MAX,
        decreases sources@.len() - index,
    {
        proof {
            assert(sources@.take(index + 1).drop_last() =~= sources@.take(index as int));
            lemma_sources_count_grows(sources@, index + 1);
        }
        count += sources[index].tile_keys.len();
        index += 1;
    }
    assert(sources@.take(index as int) =~= sources@);
    count
}

/// The counts of what is rendered.
pub fn count_work(
    parametric_cmds: &Vec<MaterializeParametricCmd>,
    render_cmds: &Vec<RenderCmd>,
) -> (stats: FrameBatchPerfStats)
    requires
        countable(parametric_cmds@, render_cmds@),
    ensures
        stats == counted(parametric_cmds@, render_cmds@),
{
    let mut parametric_dst_tile_count: usize = 0;
    let mut index: usize = 0;
    assert(parametric_cmds@.take(0) =~= Seq::<MaterializeParametricCmd>::empty());
    while index < parametric_cmds.len()
        invariant
            index <= parametric_cmds@.len(),
            parametric_dst_tile_count == parametric_tile_count(
                parametric_cmds@.take(index as int),
            ),
            parametric_tile_count(parametric_cmds@) <= usize::MAX,
        decreases parametric_cmds@.len() - index,
    {
        proof {
            assert(parametric_cmds@.take(index + 1).drop_last() =~= parametric_cmds@.take(
                index as int,
            ));
            lemma_parametric_count_grows(parametric_cmds@, index + 1);
        }
        parametric_dst_tile_count += parametric_cmds[index].dst_tile_keys.len();
        index += 1;
    }
    assert(parametric_cmds@.take(index as int) =~= parametric_cmds@);
    let mut render_dst_tile_count: usize = 0;
    let mut source_count: usize = 0;
    let mut at: usize = 0;
    assert(render_cmds@.take(0) =~= Seq::<RenderCmd>::empty());
    while at < render_cmds.len()
        invariant
            at <= render_cmds@.len(),
            render_dst_tile_count == render_tile_count(render_cmds@.take(at as int)),
            source_count == render_source_count(render_cmds@.take(at as int)),
            render_tile_count(render_cmds@) <= usize::MAX,
            render_source_count(render_cmds@) <= usize::MAX,
        decreases render_cmds@.len() - at,
    {
        proof {
            assert(render_cmds@.take(at + 1).drop_last() =~= render_cmds@.take(at as int));
            lemma_render_counts_grow(render_cmds@, at + 1);
            lemma_render_counts_grow(render_cmds@, at as int);
        }
        render_dst_tile_count += render_cmds[at].to.len();
        source_count += count_source_tiles(&render_cmds[at].from);
        at += 1;
    }
    assert(render_cmds@.take(at as int) =~= render_cmds@);
    FrameBatchPerfStats {
        parametric_cmd_count: parametric_cmds.len(),
        parametric_dst_tile_count,
        render_cmd_count: render_cmds.len(),
        render_dst_tile_count,
        render_source_count: source_count,
    }
}

/// The rendering of a frame: meshes first, then layers. Each part comes with the
/// format that its pipelines are needed in.
#[derive(Debug, PartialEq)]
pub struct FrameRendering {
    pub stats: FrameBatchPerfStats,
    pub parametric_format: Option<TextureFormat>,
    pub parametric: Vec<ParametricPlan>,
    pub render_format: Option<TextureFormat>,
    pub render: Vec<RenderCmdPlan>,
}

/// The marked tiles after the targets of meshes are marked too.
pub open spec fn meshes_marked(
    dirty: Set<TileKey>,
    cmds: Seq<MaterializeParametricCmd>,
) -> Set<TileKey>
    decreases cmds.len(),
{
    if cmds.len() == 0 {
        dirty
    } else {
        crate::gpu_runtime::dirty::all_marked(
            meshes_marked(dirty, cmds.drop_last()),
            cmds.last().dst_tile_keys@,
        )
    }
}

fn mark_meshes(tile_dirty_tracker: &mut TileDirtyTracker, cmds: &Vec<MaterializeParametricCmd>)
    ensures
        final(tile_dirty_tracker)@ == meshes_marked(old(tile_dirty_tracker)@, cmds@),
{
    let mut index: usize = 0;
    assert(cmds@.take(0) =~= Seq::<MaterializeParametricCmd>::empty());
    while index < cmds.len()
        invariant
            index <= cmds@.len(),
            tile_dirty_tracker@ == meshes_marked(
                old(tile_dirty_tracker)@,
                cmds@.take(index as int),
            ),
        decreases cmds@.len() - index,
    {
        proof {
            assert(cmds@.take(index + 1).drop_last() =~= cmds@.take(index as int));
        }
        tile_dirty_tracker.mark_all(&cmds[index].dst_tile_keys);
        index += 1;
    }
    assert(cmds@.take(index as int) =~= cmds@);
}

/// The work of one frame so far: whether there is any.
#[derive(Debug)]
pub struct FrameBatch {
    pub has_commands: bool,
}

impl FrameBatch {
    pub fn new() -> (batch: Self)
        ensures
            !batch.has_commands,
    {
        FrameBatch { has_commands: false }
    }

    /// What the GPU has to do for a command. A command that fails changes nothing;
    /// one that the GPU has taken is noted with `note_encoded`.
    pub fn push_command_with_layout(
        &self,
        cmd: &GpuCmdMsg,
        atlas_storage: &AtlasStorageRuntime,
        render_executor: &mut RenderExecutor,
        brush_executor: &WgpuBrushExecutor,
        brush_layouts: &BrushLayoutRegistry,
        device_features: GpuFeatures,
        prevalidated_layout: Option<BrushDrawInputLayout>,
    ) -> (work: Result<GpuWork, FrameBatchError>)
        requires
            atlas_storage.inv(),
        ensures
            work == command_work(
                atlas_storage@,
                brush_executor@,
                brush_layouts@,
                device_features,
                prevalidated_layout is Some,
                *cmd,
            ),
            final(render_executor)@ == format_after(atlas_storage@, old(render_executor)@, *cmd),
    {
        match cmd {
            GpuCmdMsg::DrawOp(draw_op) => {
                if prevalidated_layout.is_none() {
                    match check_draw_input::<WgpuBrushExecutorError>(draw_op, brush_layouts) {
                        Ok(_) => {},
                        Err(error) => {
                            return Err(FrameBatchError::BrushError(error));
                        },
                    }
                }
                match brush_executor.encode_draw(atlas_storage, draw_op, device_features) {
                    Ok(plan) => Ok(GpuWork::Draw(plan)),
                    Err(source) => Err(
                        FrameBatchError::BrushError(
                            BrushGpuDispatchError::Executor { brush_id: draw_op.brush_id, source },
                        ),
                    ),
                }
            },
            GpuCmdMsg::CopyOp(copy_op) => match render_executor.copy_tile(
                atlas_storage,
                copy_op,
            ) {
                Ok(plan) => Ok(GpuWork::Copy(plan)),
                Err(error) => Err(FrameBatchError::RenderError(error)),
            },
            GpuCmdMsg::WriteOp(write_op) => match render_executor.write_tile(
                atlas_storage,
                write_op,
            ) {
                Ok(plan) => Ok(GpuWork::Write(plan)),
                Err(error) => Err(FrameBatchError::RenderError(error)),
            },
            GpuCmdMsg::CompositeOp(composite_op) => {
                match render_executor.composite_tile_with_encoder(atlas_storage, composite_op) {
                    Ok(plan) => Ok(GpuWork::Composite(plan)),
                    Err(error) => Err(FrameBatchError::RenderError(error)),
                }
            },
            GpuCmdMsg::ClearOp(clear_op) => match render_executor.clear_tile(
                atlas_storage,
                clear_op,
            ) {
                Ok(plan) => Ok(GpuWork::Clear(plan)),
                Err(error) => Err(FrameBatchError::RenderError(error)),
            },
            GpuCmdMsg::RenderTreeUpdated | GpuCmdMsg::TileSlotKeyUpdate => Ok(GpuWork::Nothing),
        }
    }

    /// What the GPU has to do for a command whose input has not been checked yet.
    pub fn push_command(
        &self,
        cmd: &GpuCmdMsg,
        atlas_storage: &AtlasStorageRuntime,
        render_executor: &mut RenderExecutor,
        brush_executor: &WgpuBrushExecutor,
        brush_layouts: &BrushLayoutRegistry,
        device_features: GpuFeatures,
    ) -> (work: Result<GpuWork, FrameBatchError>)
        requires
            atlas_storage.inv(),
        ensures
            work == command_work(
                atlas_storage@,
                brush_executor@,
                brush_layouts@,
                device_features,
                false,
                *cmd,
            ),
            final(render_executor)@ == format_after(atlas_storage@, old(render_executor)@, *cmd),
    {
        self.push_command_with_layout(
            cmd,
            atlas_storage,
            render_executor,
            brush_executor,
            brush_layouts,
            device_features,
            None,
        )
    }

    /// Notes a command that the GPU has taken: the tile that it changes is
    /// marked, and for a draw the tile of the image too.
    pub fn note_encoded(
        &mut self,
        cmd: &GpuCmdMsg,
        image_dirty_tracker: &mut ImageDirtyTracker,
        tile_dirty_tracker: &mut TileDirtyTracker,
    )
        ensures
            final(image_dirty_tracker)@ == (match *cmd {
                GpuCmdMsg::DrawOp(op) => old(image_dirty_tracker)@.insert(
                    NodeTile { node_id: op.node_id, tile_index: op.tile_index },
                ),
                _ => old(image_dirty_tracker)@,
            }),
            final(tile_dirty_tracker)@ == (match changed_tile(*cmd) {
                Some(tile_key) => crate::gpu_runtime::dirty::marked(
                    old(tile_dirty_tracker)@,
                    tile_key,
                ),
                None => old(tile_dirty_tracker)@,
            }),
            final(self).has_commands == (old(self).has_commands || changed_tile(*cmd) is Some),
    {
        match cmd {
            GpuCmdMsg::DrawOp(draw_op) => {
                image_dirty_tracker.mark(draw_op.node_id, draw_op.tile_index);
                tile_dirty_tracker.mark(draw_op.tile_key);
                self.has_commands = true;
            },
            GpuCmdMsg::CopyOp(copy_op) => {
                tile_dirty_tracker.mark(copy_op.dst_tile_key);
                self.has_commands = true;
            },
            GpuCmdMsg::WriteOp(write_op) => {
                tile_dirty_tracker.mark(write_op.dst_tile_key);
                self.has_commands = true;
            },
            GpuCmdMsg::CompositeOp(composite_op) => {
                tile_dirty_tracker.mark(composite_op.dst_tile_key);
                self.has_commands = true;
            },
            GpuCmdMsg::ClearOp(clear_op) => {
                tile_dirty_tracker.mark(clear_op.tile_key);
                self.has_commands = true;
            },
            GpuCmdMsg::RenderTreeUpdated | GpuCmdMsg::TileSlotKeyUpdate => {},
        }
    }

    /// Notes draws that the GPU has taken together: no draws are no work.
    pub fn push_draw_batch(
        &mut self,
        draw_ops: &Vec<DrawOp>,
        image_dirty_tracker: &mut ImageDirtyTracker,
        tile_dirty_tracker: &mut TileDirtyTracker,
    )
        ensures
            final(image_dirty_tracker)@ == old(image_dirty_tracker)@.union(
                drawn_image_tiles(draw_ops@),
            ),
            final(tile_dirty_tracker)@ == crate::gpu_runtime::dirty::all_marked(
                old(tile_dirty_tracker)@,
                drawn_tiles(draw_ops@),
            ),
            final(self).has_commands == (old(self).has_commands || draw_ops@.len() > 0),
    {
        let mut index: usize = 0;
        proof {
            assert(draw_ops@.take(0) =~= Seq::<DrawOp>::empty());
            assert(drawn_tiles(draw_ops@.take(0)) =~= Seq::<TileKey>::empty());
            assert(image_dirty_tracker@.union(drawn_image_tiles(draw_ops@.take(0)))
                =~= image_dirty_tracker@);
        }
        while index < draw_ops.len()
            invariant
                index <= draw_ops@.len(),
                image_dirty_tracker@ == old(image_dirty_tracker)@.union(
                    drawn_image_tiles(draw_ops@.take(index as int)),
                ),
                tile_dirty_tracker@ == crate::gpu_runtime::dirty::all_marked(
                    old(tile_dirty_tracker)@,
                    drawn_tiles(draw_ops@.take(index as int)),
                ),
                self.has_commands == old(self).has_commands,
            decreases draw_ops@.len() - index,
        {
            let draw_op = &draw_ops[index];
            image_dirty_tracker.mark(draw_op.node_id, draw_op.tile_index);
            tile_dirty_tracker.mark(draw_op.tile_key);
            proof {
                let shorter = draw_ops@.take(index as int);
                let longer = draw_ops@.take(index + 1);
                assert(longer =~= shorter.push(*draw_op));
                assert(drawn_tiles(longer).drop_last() =~= drawn_tiles(shorter));
                lemma_one_more_image_tile(shorter, *draw_op);
                assert(image_dirty_tracker@ =~= old(image_dirty_tracker)@.union(
                    drawn_image_tiles(longer),
                ));
            }
            index += 1;
        }
        assert(draw_ops@.take(index as int) =~= draw_ops@);
        if draw_ops.len() > 0 {
            self.has_commands = true;
        }
    }

    /// How writes are carried out together, and their targets marked. If any of
    /// them fails nothing is marked; no writes are no work.
    pub fn push_write_batch(
        &mut self,
        write_ops: &Vec<WriteOp>,
        atlas_storage: &AtlasStorageRuntime,
        render_executor: &mut RenderExecutor,
        tile_dirty_tracker: &mut TileDirtyTracker,
    ) -> (batch: Result<WriteBatch, FrameBatchError>)
        requires
            atlas_storage.inv(),
        ensures
            final(render_executor)@ == crate::gpu_runtime::render_executor::write_calls(
                atlas_storage@,
                old(render_executor)@,
                write_ops@,
            ).0,
            match crate::gpu_runtime::render_executor::write_calls(
                atlas_storage@,
                old(render_executor)@,
                write_ops@,
            ).1 {
                Err(error) => {
                    &&& batch == Err::<WriteBatch, FrameBatchError>(
                        FrameBatchError::RenderError(error),
                    )
                    &&& final(tile_dirty_tracker)@ == old(tile_dirty_tracker)@
                    &&& final(self).has_commands == old(self).has_commands
                },
                Ok(calls) => {
                    &&& batch is Ok
                    &&& batch->Ok_0.calls@ == calls
                    &&& batch->Ok_0.passes@ == crate::gpu_runtime::render_executor::write_runs(
                        calls,
                    )
                    &&& final(tile_dirty_tracker)@ == crate::gpu_runtime::dirty::all_marked(
                        old(tile_dirty_tracker)@,
                        written_tiles(write_ops@),
                    )
                    &&& final(self).has_commands == (old(self).has_commands || write_ops@.len()
                        > 0)
                },
            },
    {
        let batch = match render_executor.write_tiles_with_encoder(atlas_storage, write_ops) {
            Ok(batch) => batch,
            Err(error) => {
                return Err(FrameBatchError::RenderError(error));
            },
        };
        let mut index: usize = 0;
        proof {
            assert(written_tiles(write_ops@.take(0)) =~= Seq::<TileKey>::empty());
        }
        while index < write_ops.len()
            invariant
                index <= write_ops@.len(),
                tile_dirty_tracker@ == crate::gpu_runtime::dirty::all_marked(
                    old(tile_dirty_tracker)@,
                    written_tiles(write_ops@.take(index as int)),
                ),
            decreases write_ops@.len() - index,
        {
            tile_dirty_tracker.mark(write_ops[index].dst_tile_key);
            proof {
                let shorter = write_ops@.take(index as int);
                let longer = write_ops@.take(index + 1);
                assert(written_tiles(longer).drop_last() =~= written_tiles(shorter));
            }
            index += 1;
        }
        assert(write_ops@.take(index as int) =~= write_ops@);
        if write_ops.len() > 0 {
            self.has_commands = true;
        }
        Ok(batch)
    }

    /// How a frame is rendered: with no image marked there is nothing to render;
    /// else the meshes and then the layers that the tree asks for, and the tiles
    /// of the meshes are marked.
    pub fn execute_render_commands(
        &mut self,
        image_dirty_tracker: &ImageDirtyTracker,
        parametric_cmds: &Vec<MaterializeParametricCmd>,
        render_cmds: &Vec<RenderCmd>,
        atlas_storage: &AtlasStorageRuntime,
        render_executor: &mut RenderExecutor,
        tile_dirty_tracker: &mut TileDirtyTracker,
    ) -> (rendering: Result<Option<FrameRendering>, FrameBatchError>)
        requires
            atlas_storage.inv(),
            countable(parametric_cmds@, render_cmds@),
        ensures
            image_dirty_tracker@ == Set::<NodeTile>::empty() ==> {
                &&& rendering == Ok::<Option<FrameRendering>, FrameBatchError>(None)
                &&& final(render_executor)@ == old(render_executor)@
                &&& final(tile_dirty_tracker)@ == old(tile_dirty_tracker)@
                &&& final(self).has_commands == old(self).has_commands
            },
            image_dirty_tracker@ != Set::<NodeTile>::empty() ==> {
                let meshes = crate::gpu_runtime::render_passes::all_materialized(
                    atlas_storage@,
                    parametric_cmds@,
                );
                let layers = crate::gpu_runtime::render_passes::all_encoded(
                    atlas_storage@,
                    render_cmds@,
                );
                let mesh_format = if parametric_cmds@.len() == 0 {
                    old(render_executor)@
                } else {
                    Some(
                        crate::gpu_runtime::render_passes::detected_format(
                            atlas_storage@,
                            crate::gpu_runtime::render_passes::parametric_targets(
                                parametric_cmds@,
                            ),
                        ),
                    )
                };
                let layer_format = if render_cmds@.len() == 0 {
                    mesh_format
                } else {
                    Some(
                        crate::gpu_runtime::render_passes::detected_format(
                            atlas_storage@,
                            crate::gpu_runtime::render_passes::render_targets(render_cmds@),
                        ),
                    )
                };
                if meshes is Err {
                    &&& rendering == Err::<Option<FrameRendering>, FrameBatchError>(
                        FrameBatchError::RenderError(meshes->Err_0),
                    )
                    &&& final(render_executor)@ == mesh_format
                    &&& final(tile_dirty_tracker)@ == old(tile_dirty_tracker)@
                    &&& final(self).has_commands == old(self).has_commands
                } else {
                    &&& final(render_executor)@ == layer_format
                    &&& final(tile_dirty_tracker)@ == meshes_marked(
                        old(tile_dirty_tracker)@,
                        parametric_cmds@,
                    )
                    &&& if layers is Err {
                        &&& rendering == Err::<Option<FrameRendering>, FrameBatchError>(
                            FrameBatchError::RenderError(layers->Err_0),
                        )
                        &&& final(self).has_commands == (old(self).has_commands
                            || parametric_cmds@.len() > 0)
                    } else {
                        &&& rendering matches Ok(Some(done))
                        &&& done.stats == counted(parametric_cmds@, render_cmds@)
                        &&& done.parametric_format == mesh_format
                        &&& crate::collections::viewed_seq(done.parametric@) == meshes->Ok_0
                        &&& done.render_format == layer_format
                        &&& crate::collections::viewed_seq(done.render@) == layers->Ok_0
                        &&& final(self).has_commands == (old(self).has_commands
                            || parametric_cmds@.len() > 0 || render_cmds@.len() > 0)
                    }
                }
            },
    {
        if image_dirty_tracker.is_empty() {
            return Ok(None);
        }
        let stats = count_work(parametric_cmds, render_cmds);
        let mut parametric: Vec<ParametricPlan> = Vec::new();
        if let Err(error) = render_executor.materialize_parametric_with_encoder(
            &mut parametric,
            atlas_storage,
            parametric_cmds,
        ) {
            return Err(FrameBatchError::RenderError(error));
        }
        proof {
            crate::gpu_runtime::render_passes::lemma_meshes_without_fault(
                atlas_storage@,
                parametric_cmds@,
            );
            assert(crate::collections::viewed_seq(parametric@)
                =~= crate::gpu_runtime::render_passes::all_meshes_carried_out(
                atlas_storage@,
                parametric_cmds@,
            ));
        }
        let parametric_format = render_executor.pipeline_format();
        mark_meshes(tile_dirty_tracker, parametric_cmds);
        if parametric_cmds.len() > 0 {
            self.has_commands = true;
        }
        let render = match render_executor.execute(atlas_storage, render_cmds) {
            Ok(plans) => plans,
            Err(error) => {
                return Err(FrameBatchError::RenderError(error));
            },
        };
        let render_format = render_executor.pipeline_format();
        if render_cmds.len() > 0 {
            self.has_commands = true;
        }
        Ok(Some(FrameRendering { stats, parametric_format, parametric, render_format, render }))
    }

    /// Ends the frame without rendering, and tells whether there is work to
    /// submit.
    pub fn submit_only(self) -> (submit: bool)
        ensures
            submit == self.has_commands,
    {
        self.has_commands
    }

    /// Ends a frame that has been rendered: nothing is marked any more, and the
    /// result tells whether there is work to submit.
    pub fn finish(
        self,
        image_dirty_tracker: &mut ImageDirtyTracker,
        tile_dirty_tracker: &mut TileDirtyTracker,
    ) -> (submit: bool)
        ensures
            submit == self.has_commands,
            final(image_dirty_tracker)@ == Set::<NodeTile>::empty(),
            final(tile_dirty_tracker)@ == Set::<TileKey>::empty(),
    {
        image_dirty_tracker.clear();
        tile_dirty_tracker.clear();
        self.has_commands
    }
}

proof fn lemma_one_more_image_tile(ops: Seq<DrawOp>, op: DrawOp)
    ensures
        drawn_image_tiles(ops.push(op)) == drawn_image_tiles(ops).insert(
            NodeTile { node_id: op.node_id, tile_index: op.tile_index },
        ),
{
    let node_tile = |op: DrawOp| NodeTile { node_id: op.node_id, tile_index: op.tile_index };
    let before = ops.map_values(node_tile);
    let after = ops.push(op).map_values(node_tile);
    assert(after =~= before.push(node_tile(op)));
    assert forall|tile: NodeTile|
        before.to_set().insert(node_tile(op)).contains(tile) implies after.to_set().contains(
        tile,
    ) by {
        if tile == node_tile(op) {
            assert(after[before.len() as int] == tile);
        } else {
            let i = choose|i: int| 0 <= i < before.len() && before[i] == tile;
            assert(after[i] == tile);
        }
    }
    assert(after.to_set() =~= before.to_set().insert(node_tile(op)));
}

/// A command that asks the GPU for work changes a tile, and only such a command
/// does.
pub proof fn lemma_work_changes_a_tile(
    backends: Seq<BackendBinding>,
    brushes: Map<u64, BrushContext>,
    layouts: LayoutsModel,
    features: GpuFeatures,
    prevalidated: bool,
    cmd: GpuCmdMsg,
)
    requires
        command_work(backends, brushes, layouts, features, prevalidated, cmd) is Ok,
    ensures
        changed_tile(cmd) is Some <==> command_work(
            backends,
            brushes,
            layouts,
            features,
            prevalidated,
            cmd,
        )->Ok_0 !is Nothing,
{
}

} // verus!
