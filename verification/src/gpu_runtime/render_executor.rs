//! Carrying out commands on tiles of the atlas: what each one reads, where it
//! draws, and in which format the pipelines are needed.
use vstd::prelude::*;

use crate::gpu_runtime::atlas_runtime::{
    AtlasResolvedAddress, AtlasStorageRuntime, BackendBinding, TextureFormat,
};
use crate::gpu_runtime::commands::{
    ClearOp, CompositeOp, CopyOp, MaterializeParametricCmd, RenderCmd, WriteBlendMode, WriteOp,
};
use crate::gpu_runtime::native_words::native_bytes;
use crate::gpu_runtime::render_passes::{
    create_bind_group, detect_format, detect_parametric_format, encode_cmds,
    encode_parametric_cmds, find_tile, ParametricPlan, RenderCmdPlan, RenderExecutorError,
    RenderPassKey, RenderPipelineKind, TileBinding,
};
use crate::scalar::FloatBits;
use crate::tiles::TileKey;

verus! {

/// What the shader that puts one tile over another is told.
#[derive(Debug, Clone, Copy, PartialEq)]
pub struct CompositeParams {
    pub base_x: u32,
    pub base_y: u32,
    pub overlay_x: u32,
    pub overlay_y: u32,
    pub opacity: FloatBits,
    pub pad0: FloatBits,
    pub pad1: FloatBits,
}

impl CompositeParams {
    /// The words of the uniform buffer, which ends with an unused one.
    pub open spec fn words(&self) -> Seq<u32> {
        seq![
            self.base_x,
            self.base_y,
            self.overlay_x,
            self.overlay_y,
            self.opacity.0,
            self.pad0.0,
            self.pad1.0,
            0,
        ]
    }

    /// The bytes of the uniform buffer.
    pub fn encode(&self) -> (bytes: Vec<u8>)
        ensures
            bytes@.len() == 32,
            crate::gpu_runtime::native_words::natively_laid_out(bytes@, self.words()),
    {
        let mut words: Vec<u32> = Vec::new();
        words.push(self.base_x);
        words.push(self.base_y);
        words.push(self.overlay_x);
        words.push(self.overlay_y);
        words.push(self.opacity.0);
        words.push(self.pad0.0);
        words.push(self.pad1.0);
        words.push(0);
        assert(words@ =~= self.words());
        native_bytes(&words)
    }
}

/// A copy of a tile: the whole square, from one place to another.
#[derive(Debug, Clone, Copy, PartialEq, Eq)]
pub struct TileCopy {
    pub source: AtlasResolvedAddress,
    pub target: AtlasResolvedAddress,
}

/// A tile that is written onto another one. Nothing outside the square that
/// starts at the scissor's corner is touched.
#[derive(Debug, Clone, Copy, PartialEq)]
pub struct PreparedWriteCall {
    pub pass_key: RenderPassKey,
    pub scissor_x: u32,
    pub scissor_y: u32,
    pub binding: TileBinding,
    pub pipeline: RenderPipelineKind,
}

/// A tile that is put over another one into a third.
#[derive(Debug, Clone, Copy, PartialEq)]
pub struct PreparedCompositeCall {
    pub base: AtlasResolvedAddress,
    pub overlay: AtlasResolvedAddress,
    pub target: AtlasResolvedAddress,
    pub params: CompositeParams,
    pub pipeline: RenderPipelineKind,
}

/// The copy that is asked for: the backend of the source is looked at first.
pub open spec fn copied(backends: Seq<BackendBinding>, op: CopyOp) -> Result<
    TileCopy,
    RenderExecutorError,
> {
    match crate::gpu_runtime::render_passes::found(backends, op.src_tile_key) {
        Err(error) => Err(error),
        Ok(source) => match crate::gpu_runtime::render_passes::found(backends, op.dst_tile_key) {
            Err(error) => Err(error),
            Ok(target) => Ok(TileCopy { source, target }),
        },
    }
}

/// The pipeline that writes a tile onto another one.
pub open spec fn write_pipeline(blend_mode: WriteBlendMode) -> RenderPipelineKind {
    match blend_mode {
        WriteBlendMode::Normal => RenderPipelineKind::Normal,
        WriteBlendMode::Erase => RenderPipelineKind::WriteErase,
    }
}

/// The write that is asked for: the backend of the source is looked at first.
pub open spec fn write_call(backends: Seq<BackendBinding>, op: WriteOp) -> Result<
    PreparedWriteCall,
    RenderExecutorError,
> {
    match crate::gpu_runtime::render_passes::binding(
        backends,
        op.src_tile_key,
        op.opacity,
        op.rgb,
        op.origin_tile_key,
    ) {
        Err(error) => Err(error),
        Ok(binding) => match crate::gpu_runtime::render_passes::found(
            backends,
            op.dst_tile_key,
        ) {
            Err(error) => Err(error),
            Ok(target) => Ok(
                PreparedWriteCall {
                    pass_key: RenderPassKey::at(target),
                    scissor_x: target.address.texel_offset.0,
                    scissor_y: target.address.texel_offset.1,
                    binding,
                    pipeline: write_pipeline(op.blend_mode),
                },
            ),
        },
    }
}

/// The composition that is asked for: the backends are looked at in the order of
/// base, overlay, target. Both blend modes are drawn alike.
pub open spec fn composite_call(backends: Seq<BackendBinding>, op: CompositeOp) -> Result<
    PreparedCompositeCall,
    RenderExecutorError,
> {
    match crate::gpu_runtime::render_passes::found(backends, op.base_tile_key) {
        Err(error) => Err(error),
        Ok(base) => match crate::gpu_runtime::render_passes::found(
            backends,
            op.overlay_tile_key,
        ) {
            Err(error) => Err(error),
            Ok(overlay) => match crate::gpu_runtime::render_passes::found(
                backends,
                op.dst_tile_key,
            ) {
                Err(error) => Err(error),
                Ok(target) => Ok(
                    PreparedCompositeCall {
                        base,
                        overlay,
                        target,
                        params: CompositeParams {
                            base_x: base.address.texel_offset.0,
                            base_y: base.address.texel_offset.1,
                            overlay_x: overlay.address.texel_offset.0,
                            overlay_y: overlay.address.texel_offset.1,
                            opacity: op.opacity,
                            pad0: FloatBits(0),
                            pad1: FloatBits(0),
                        },
                        pipeline: RenderPipelineKind::CompositeNormal,
                    },
                ),
            },
        },
    }
}

/// The parameters of a composition, with the places that it reads.
pub fn create_composite_bind_group(
    atlas_storage: &AtlasStorageRuntime,
    composite_op: &CompositeOp,
) -> (bound: Result<
    (AtlasResolvedAddress, AtlasResolvedAddress, CompositeParams),
    RenderExecutorError,
>)
    requires
        atlas_storage.inv(),
    ensures
        match crate::gpu_runtime::render_passes::found(
            atlas_storage@,
            composite_op.base_tile_key,
        ) {
            Err(error) => bound == Err::<
                (AtlasResolvedAddress, AtlasResolvedAddress, CompositeParams),
                RenderExecutorError,
            >(error),
            Ok(base) => match crate::gpu_runtime::render_passes::found(
                atlas_storage@,
                composite_op.overlay_tile_key,
            ) {
                Err(error) => bound == Err::<
                    (AtlasResolvedAddress, AtlasResolvedAddress, CompositeParams),
                    RenderExecutorError,
                >(error),
                Ok(overlay) => bound == Ok::<
                    (AtlasResolvedAddress, AtlasResolvedAddress, CompositeParams),
                    RenderExecutorError,
                >(
                    (
                        base,
                        overlay,
                        CompositeParams {
                            base_x: base.address.texel_offset.0,
                            base_y: base.address.texel_offset.1,
                            overlay_x: overlay.address.texel_offset.0,
                            overlay_y: overlay.address.texel_offset.1,
                            opacity: composite_op.opacity,
                            pad0: FloatBits(0),
                            pad1: FloatBits(0),
                        },
                    ),
                ),
            },
        },
{
    let base = match find_tile(atlas_storage, composite_op.base_tile_key) {
        Ok(resolved) => resolved,
        Err(error) => {
            return Err(error);
        },
    };
    let overlay = match find_tile(atlas_storage, composite_op.overlay_tile_key) {
        Ok(resolved) => resolved,
        Err(error) => {
            return Err(error);
        },
    };
    let params = CompositeParams {
        base_x: base.address.texel_offset.0,
        base_y: base.address.texel_offset.1,
        overlay_x: overlay.address.texel_offset.0,
        overlay_y: overlay.address.texel_offset.1,
        opacity: composite_op.opacity,
        pad0: FloatBits(0),
        pad1: FloatBits(0),
    };
    Ok((base, overlay, params))
}

/// The writes that are asked for, up to the first fault, and the format of the
/// pipelines afterwards: each write needs that of its target.
pub open spec fn write_calls(
    backends: Seq<BackendBinding>,
    format: Option<TextureFormat>,
    ops: Seq<WriteOp>,
) -> (Option<TextureFormat>, Result<Seq<PreparedWriteCall>, RenderExecutorError>)
    decreases ops.len(),
{
    if ops.len() == 0 {
        (format, Ok(Seq::empty()))
    } else {
        let (before, result) = write_calls(backends, format, ops.drop_last());
        match result {
            Err(error) => (before, Err(error)),
            Ok(calls) => match write_call(backends, ops.last()) {
                Err(error) => (before, Err(error)),
                Ok(call) => (Some(call.pass_key.format), Ok(calls.push(call))),
            },
        }
    }
}

proof fn lemma_write_fault_stays(
    backends: Seq<BackendBinding>,
    format: Option<TextureFormat>,
    ops: Seq<WriteOp>,
    count: int,
)
    requires
        0 <= count <= ops.len(),
        write_calls(backends, format, ops.take(count)).1 is Err,
    ensures
        write_calls(backends, format, ops) == write_calls(backends, format, ops.take(count)),
    decreases ops.len() - count,
{
    if count < ops.len() {
        assert(ops.take(count + 1).drop_last() =~= ops.take(count));
        lemma_write_fault_stays(backends, format, ops, count + 1);
    } else {
        assert(ops.take(count) =~= ops);
    }
}

/// A pass of writes: those from the first index up to but without the second.
#[derive(Debug, Clone, Copy, PartialEq, Eq, Structural)]
pub struct WritePass {
    pub key: RenderPassKey,
    pub start: usize,
    pub end: usize,
}

/// Writes, and the passes that draw them.
#[derive(Debug, PartialEq)]
pub struct WriteBatch {
    pub calls: Vec<PreparedWriteCall>,
    pub passes: Vec<WritePass>,
}

/// The passes of the writes: a write goes on the pass of the one before it if it
/// draws on the same layer, or else starts one.
pub open spec fn write_runs(calls: Seq<PreparedWriteCall>) -> Seq<WritePass>
    decreases calls.len(),
{
    if calls.len() == 0 {
        Seq::empty()
    } else {
        let runs = write_runs(calls.drop_last());
        if runs.len() > 0 && runs.last().key == calls.last().pass_key {
            runs.update(
                runs.len() - 1,
                WritePass { end: calls.len() as usize, ..runs.last() },
            )
        } else {
            runs.push(
                WritePass {
                    key: calls.last().pass_key,
                    start: (calls.len() - 1) as usize,
                    end: calls.len() as usize,
                },
            )
        }
    }
}

/// The passes of the writes.
pub fn write_passes(calls: &Vec<PreparedWriteCall>) -> (passes: Vec<WritePass>)
    ensures
        passes@ == write_runs(calls@),
{
    let mut passes: Vec<WritePass> = Vec::new();
    let mut index: usize = 0;
    proof {
        assert(calls@.take(0) =~= Seq::<PreparedWriteCall>::empty());
        assert(passes@ =~= Seq::<WritePass>::empty());
    }
    while index < calls.len()
        invariant
            index <= calls@.len(),
            passes@ == write_runs(calls@.take(index as int)),
        decreases calls@.len() - index,
    {
        let call = calls[index];
        proof {
            assert(calls@.take(index + 1).drop_last() =~= calls@.take(index as int));
            assert(calls@.take(index + 1).last() == call);
        }
        let count: usize = passes.len();
        if count > 0 && passes[count - 1].key == call.pass_key {
            let last = passes[count - 1];
            passes.set(count - 1, WritePass { key: last.key, start: last.start, end: index + 1 });
        } else {
            passes.push(WritePass { key: call.pass_key, start: index, end: index + 1 });
        }
        index += 1;
    }
    assert(calls@.take(index as int) =~= calls@);
    passes
}

/// The executor: its state is the format that the pipelines are built for, once
/// they are.
#[derive(Debug)]
pub struct RenderExecutor {
    pipeline_format: Option<TextureFormat>,
}

impl View for RenderExecutor {
    type V = Option<TextureFormat>;

    closed spec fn view(&self) -> Option<TextureFormat> {
        self.pipeline_format
    }
}

impl RenderExecutor {
    pub fn new() -> (executor: Self)
        ensures
            executor@ is None,
    {
        RenderExecutor { pipeline_format: None }
    }

    /// The format that the pipelines are needed in.
    pub fn pipeline_format(&self) -> (format: Option<TextureFormat>)
        ensures
            format == self@,
    {
        self.pipeline_format
    }

    /// Asks for pipelines in a format, and tells whether they must be built: not
    /// if those at hand are in that format.
    pub fn ensure_pipelines(&mut self, format: TextureFormat) -> (build: bool)
        ensures
            final(self)@ == Some(format),
            build == (old(self)@ != Some(format)),
    {
        if let Some(present) = self.pipeline_format {
            if present == format {
                return false;
            }
        }
        self.pipeline_format = Some(format);
        true
    }

    /// Adds how meshes are drawn into tiles to what an encoder holds. After a
    /// fault it holds what was drawn before.
    pub fn materialize_parametric_with_encoder(
        &mut self,
        encoder: &mut Vec<ParametricPlan>,
        atlas_storage: &AtlasStorageRuntime,
        cmds: &Vec<MaterializeParametricCmd>,
    ) -> (result: Result<(), RenderExecutorError>)
        requires
            atlas_storage.inv(),
        ensures
            final(self)@ == (if cmds@.len() == 0 {
                old(self)@
            } else {
                Some(
                    crate::gpu_runtime::render_passes::detected_format(
                        atlas_storage@,
                        crate::gpu_runtime::render_passes::parametric_targets(cmds@),
                    ),
                )
            }),
            result == crate::gpu_runtime::render_passes::answered(
                crate::gpu_runtime::render_passes::all_materialized(atlas_storage@, cmds@),
            ),
            crate::collections::viewed_seq(final(encoder)@) == crate::collections::viewed_seq(
                old(encoder)@,
            ) + crate::gpu_runtime::render_passes::all_meshes_carried_out(atlas_storage@, cmds@),
    {
        if cmds.len() > 0 {
            let format = detect_parametric_format(atlas_storage, cmds);
            self.ensure_pipelines(format);
        }
        encode_parametric_cmds(atlas_storage, cmds, encoder)
    }

    /// How commands are carried out, all of them or none.
    pub fn execute(&mut self, atlas_storage: &AtlasStorageRuntime, cmds: &Vec<RenderCmd>) -> (plans:
        Result<Vec<RenderCmdPlan>, RenderExecutorError>)
        requires
            atlas_storage.inv(),
        ensures
            final(self)@ == (if cmds@.len() == 0 {
                old(self)@
            } else {
                Some(
                    crate::gpu_runtime::render_passes::detected_format(
                        atlas_storage@,
                        crate::gpu_runtime::render_passes::render_targets(cmds@),
                    ),
                )
            }),
            crate::gpu_runtime::render_passes::all_planned(plans)
                == crate::gpu_runtime::render_passes::all_encoded(atlas_storage@, cmds@),
    {
        let mut plans: Vec<RenderCmdPlan> = Vec::new();
        match self.execute_with_encoder(&mut plans, atlas_storage, cmds) {
            Ok(()) => {
                proof {
                    crate::gpu_runtime::render_passes::lemma_commands_without_fault(
                        atlas_storage@,
                        cmds@,
                    );
                    assert(crate::collections::viewed_seq(plans@)
                        =~= crate::gpu_runtime::render_passes::all_carried_out(
                        atlas_storage@,
                        cmds@,
                    ));
                }
                Ok(plans)
            },
            Err(error) => Err(error),
        }
    }

    /// Adds how commands are carried out to what an encoder holds. After a fault
    /// it holds what was done before: earlier commands as a whole, and the targets
    /// that the one with the fault has cleared.
    pub fn execute_with_encoder(
        &mut self,
        encoder: &mut Vec<RenderCmdPlan>,
        atlas_storage: &AtlasStorageRuntime,
        cmds: &Vec<RenderCmd>,
    ) -> (result: Result<(), RenderExecutorError>)
        requires
            atlas_storage.inv(),
        ensures
            final(self)@ == (if cmds@.len() == 0 {
                old(self)@
            } else {
                Some(
                    crate::gpu_runtime::render_passes::detected_format(
                        atlas_storage@,
                        crate::gpu_runtime::render_passes::render_targets(cmds@),
                    ),
                )
            }),
            result == crate::gpu_runtime::render_passes::answered(
                crate::gpu_runtime::render_passes::all_encoded(atlas_storage@, cmds@),
            ),
            crate::collections::viewed_seq(final(encoder)@) == crate::collections::viewed_seq(
                old(encoder)@,
            ) + crate::gpu_runtime::render_passes::all_carried_out(atlas_storage@, cmds@),
    {
        if cmds.len() > 0 {
            let format = detect_format(atlas_storage, cmds);
            self.ensure_pipelines(format);
        }
        encode_cmds(atlas_storage, cmds, encoder)
    }

    /// Where a tile is cleared.
    pub fn clear_tile(&mut self, atlas_storage: &AtlasStorageRuntime, clear_op: &ClearOp) -> (target:
        Result<AtlasResolvedAddress, RenderExecutorError>)
        requires
            atlas_storage.inv(),
        ensures
            target == crate::gpu_runtime::render_passes::found(atlas_storage@, clear_op.tile_key),
            final(self)@ == (match target {
                Ok(resolved) => Some(resolved.format),
                Err(_) => old(self)@,
            }),
    {
        match find_tile(atlas_storage, clear_op.tile_key) {
            Ok(resolved) => {
                self.ensure_pipelines(resolved.format);
                Ok(resolved)
            },
            Err(error) => Err(error),
        }
    }

    /// How a tile is copied.
    pub fn copy_tile(&self, atlas_storage: &AtlasStorageRuntime, copy_op: &CopyOp) -> (copy: Result<
        TileCopy,
        RenderExecutorError,
    >)
        requires
            atlas_storage.inv(),
        ensures
            copy == copied(atlas_storage@, *copy_op),
    {
        let source = match find_tile(atlas_storage, copy_op.src_tile_key) {
            Ok(resolved) => resolved,
            Err(error) => {
                return Err(error);
            },
        };
        match find_tile(atlas_storage, copy_op.dst_tile_key) {
            Ok(target) => Ok(TileCopy { source, target }),
            Err(error) => Err(error),
        }
    }

    /// How a tile is written onto another one.
    pub fn write_tile(&mut self, atlas_storage: &AtlasStorageRuntime, write_op: &WriteOp) -> (call:
        Result<PreparedWriteCall, RenderExecutorError>)
        requires
            atlas_storage.inv(),
        ensures
            call == write_call(atlas_storage@, *write_op),
            final(self)@ == (match call {
                Ok(call) => Some(call.pass_key.format),
                Err(_) => old(self)@,
            }),
    {
        let binding = match create_bind_group(
            atlas_storage,
            write_op.src_tile_key,
            write_op.opacity,
            write_op.rgb,
            write_op.origin_tile_key,
        ) {
            Ok(binding) => binding,
            Err(error) => {
                return Err(error);
            },
        };
        let target = match find_tile(atlas_storage, write_op.dst_tile_key) {
            Ok(resolved) => resolved,
            Err(error) => {
                return Err(error);
            },
        };
        self.ensure_pipelines(target.format);
        let pipeline = match write_op.blend_mode {
            WriteBlendMode::Normal => RenderPipelineKind::Normal,
            WriteBlendMode::Erase => RenderPipelineKind::WriteErase,
        };
        Ok(
            PreparedWriteCall {
                pass_key: RenderPassKey::of(target),
                scissor_x: target.address.texel_offset.0,
                scissor_y: target.address.texel_offset.1,
                binding,
                pipeline,
            },
        )
    }

    /// How tiles are written onto others, in order: the first fault stops them
    /// all.
    pub fn prepare_write_calls(
        &mut self,
        atlas_storage: &AtlasStorageRuntime,
        write_ops: &Vec<WriteOp>,
    ) -> (calls: Result<Vec<PreparedWriteCall>, RenderExecutorError>)
        requires
            atlas_storage.inv(),
        ensures
            final(self)@ == write_calls(atlas_storage@, old(self)@, write_ops@).0,
            crate::gpu_runtime::render_passes::planned(calls) == write_calls(
                atlas_storage@,
                old(self)@,
                write_ops@,
            ).1,
    {
        let mut calls: Vec<PreparedWriteCall> = Vec::new();
        let mut index: usize = 0;
        proof {
            assert(write_ops@.take(0) =~= Seq::<WriteOp>::empty());
            assert(calls@ =~= Seq::<PreparedWriteCall>::empty());
        }
        while index < write_ops.len()
            invariant
                atlas_storage.inv(),
                index <= write_ops@.len(),
                write_calls(atlas_storage@, old(self)@, write_ops@.take(index as int)) == (
                    self@,
                    Ok::<Seq<PreparedWriteCall>, RenderExecutorError>(calls@),
                ),
            decreases write_ops@.len() - index,
        {
            proof {
                let longer = write_ops@.take(index + 1);
                assert(longer.drop_last() =~= write_ops@.take(index as int));
                assert(longer.last() == write_ops@[index as int]);
                if write_calls(atlas_storage@, old(self)@, longer).1 is Err {
                    lemma_write_fault_stays(
                        atlas_storage@,
                        old(self)@,
                        write_ops@,
                        index + 1,
                    );
                }
            }
            match self.write_tile(atlas_storage, &write_ops[index]) {
                Ok(call) => {
                    calls.push(call);
                },
                Err(error) => {
                    return Err(error);
                },
            }
            index += 1;
        }
        assert(write_ops@.take(index as int) =~= write_ops@);
        Ok(calls)
    }

    /// How tiles are written onto others: the writes, and the passes that draw
    /// them.
    pub fn write_tiles_with_encoder(
        &mut self,
        atlas_storage: &AtlasStorageRuntime,
        write_ops: &Vec<WriteOp>,
    ) -> (batch: Result<WriteBatch, RenderExecutorError>)
        requires
            atlas_storage.inv(),
        ensures
            final(self)@ == write_calls(atlas_storage@, old(self)@, write_ops@).0,
            match write_calls(atlas_storage@, old(self)@, write_ops@).1 {
                Err(error) => batch == Err::<WriteBatch, RenderExecutorError>(error),
                Ok(calls) => batch is Ok && batch->Ok_0.calls@ == calls && batch->Ok_0.passes@
                    == write_runs(calls),
            },
    {
        match self.prepare_write_calls(atlas_storage, write_ops) {
            Ok(calls) => {
                let passes = write_passes(&calls);
                Ok(WriteBatch { calls, passes })
            },
            Err(error) => Err(error),
        }
    }

    /// How a tile is put over another one into a third.
    pub fn composite_tile_with_encoder(
        &mut self,
        atlas_storage: &AtlasStorageRuntime,
        composite_op: &CompositeOp,
    ) -> (call: Result<PreparedCompositeCall, RenderExecutorError>)
        requires
            atlas_storage.inv(),
        ensures
            call == composite_call(atlas_storage@, *composite_op),
            final(self)@ == (match call {
                Ok(call) => Some(call.target.format),
                Err(_) => old(self)@,
            }),
    {
        let (base, overlay, params) = match create_composite_bind_group(
            atlas_storage,
            composite_op,
        ) {
            Ok(bound) => bound,
            Err(error) => {
                return Err(error);
            },
        };
        let target = match find_tile(atlas_storage, composite_op.dst_tile_key) {
            Ok(resolved) => resolved,
            Err(error) => {
                return Err(error);
            },
        };
        self.ensure_pipelines(target.format);
        Ok(
            PreparedCompositeCall {
                base,
                overlay,
                target,
                params,
                pipeline: RenderPipelineKind::CompositeNormal,
            },
        )
    }
}

/// The passes draw the writes in order: the first starts with the first write,
/// each goes on where the one before it ends, and the last ends with the last
/// write.
pub open spec fn in_order(runs: Seq<WritePass>, count: int) -> bool {
    &&& runs.len() == 0 <==> count == 0
    &&& runs.len() > 0 ==> runs[0].start == 0 && runs.last().end == count
    &&& forall|i: int, j: int|
        0 <= i < j < runs.len() && j == i + 1 ==> (#[trigger] runs[i]).end == (
        #[trigger] runs[j]).start
    &&& forall|i: int| 0 <= i < runs.len() ==> (#[trigger] runs[i]).start < runs[i].end <= count
}

/// Writes are drawn in their order, each in a pass on its own layer, and no two
/// passes in a row draw on one layer.
pub proof fn lemma_writes_keep_their_order(calls: Seq<PreparedWriteCall>)
    requires
        calls.len() <= usize::MAX,
    ensures
        in_order(write_runs(calls), calls.len() as int),
        forall|i: int, k: int|
            0 <= i < write_runs(calls).len() && write_runs(calls)[i].start <= k < write_runs(
                calls,
            )[i].end ==> (#[trigger] calls[k]).pass_key == (#[trigger] write_runs(calls)[i]).key,
        forall|i: int, j: int|
            0 <= i < j < write_runs(calls).len() && j == i + 1 ==> (#[trigger] write_runs(
                calls,
            )[i]).key != (#[trigger] write_runs(calls)[j]).key,
    decreases calls.len(),
{
    if calls.len() > 0 {
        let shorter = calls.drop_last();
        lemma_writes_keep_their_order(shorter);
        let before = write_runs(shorter);
        let after = write_runs(calls);
        assert forall|i: int, k: int|
            0 <= i < after.len() && after[i].start <= k < after[i].end implies (
        #[trigger] calls[k]).pass_key == (#[trigger] after[i]).key by {
            if k < shorter.len() {
                assert(calls[k] == shorter[k]);
                assert(before[i].start <= k < before[i].end);
            }
        }
    }
}

/// Writing one tile onto another changes nothing of a tile in another slot.
pub proof fn lemma_write_leaves_neighbors_alone(
    backends: Seq<BackendBinding>,
    op: WriteOp,
    neighbor: TileKey,
)
    requires
        forall|id: int|
            0 <= id < backends.len() ==> crate::gpu_runtime::atlas_runtime::addressable(
                (#[trigger] backends[id]).layout,
            ),
        write_call(backends, op) is Ok,
        crate::gpu_runtime::atlas_runtime::location(backends, neighbor) is Some,
        op.dst_tile_key.backend != neighbor.backend || op.dst_tile_key.slot != neighbor.slot,
    ensures
        crate::gpu_runtime::atlas_runtime::apart(
            crate::gpu_runtime::render_passes::found(backends, op.dst_tile_key)->Ok_0,
            crate::gpu_runtime::atlas_runtime::location(backends, neighbor)->0,
        ),
{
    crate::gpu_runtime::atlas_runtime::lemma_located_tiles_do_not_overlap(
        backends,
        op.dst_tile_key,
        neighbor,
    );
}

} // verus!
