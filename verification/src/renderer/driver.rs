//! The renderer: its state, and what callers do with it.
use std::collections::VecDeque;
use vstd::prelude::*;

use crate::collections::KeyMap;
use crate::render_protocol::{
    BrushControlAck, BrushControlCommand, BrushRenderCommand, BufferTileCoordinate, GpuMergeOp,
    MergePlanMeta, ReceiptProgress, ReceiptTerminalState, RenderOp, RenderTreeSnapshot,
    RendererSubmissionId, StrokeExecutionFailure, StrokeExecutionReceipt, StrokeExecutionReceiptId,
    SubmissionReport, TransformMatrix4x4, Viewport,
};
use crate::renderer::brush::{
    BrushBindingFault, BrushControlError, BrushExecutionFault, BrushModel, BrushRenderEnqueueError,
    BrushWork, BrushWorkState,
};
use crate::renderer::composite::{
    render_composite_node_plan, CompositeAction, CompositeEmission, CompositeFault,
    CompositeModel, CompositeRun,
};
use crate::renderer::dirty::{DirtyModel, DirtyRect};
use crate::renderer::frame::{
    build_frame_plan, commit_frame_result, next_frame_id, FrameExecutionResult, FramePlan,
};
use crate::renderer::group_cache::GroupTargetCacheEntry;
use crate::renderer::group_tiles::{FreshTile, GroupTiles, GroupTilesModel};
use crate::renderer::merge::{
    DevicePoll, MergeAckError, MergeCompletionNotice, MergeEnqueueError, MergeFinalizeError,
    MergeModel, MergeOrchestrator, MergePollError, MergeSubmitError,
};
use crate::renderer::merge_submission::{
    plan_merge_submission, CopyExtent, MergeAtlases, MergeStep,
};
use crate::renderer::planning::{FrameSync, FrameVersion};
use crate::renderer::resolver::RenderDataResolver;
use crate::renderer::state::{CacheState, FrameState, ViewState};
use crate::renderer::timing::{FrameGpuTimingReport, GpuFrameTimingState, TimingMapEvent};
use crate::renderer::view_ops::{apply_view_op, apply_view_ops, ViewSide};
use crate::tiles::{TileAddress, TileKey};

verus! {

broadcast use crate::collections::group_viewed;

/// The renderer.
pub struct Renderer {
    pub view_state: ViewState,
    pub frame_state: FrameState,
    pub cache_state: CacheState,
    pub brush_work_state: BrushWorkState,
    pub merge_orchestrator: MergeOrchestrator,
    pub gpu_timing: GpuFrameTimingState,
    pub surface_width: u32,
    pub surface_height: u32,
}

/// A size of a surface, which is not empty.
pub open spec fn at_least_one(size: u32) -> u32 {
    if size == 0 {
        1
    } else {
        size
    }
}

impl Renderer {
    /// A renderer for a surface. The document is composed once there is a tree.
    pub fn new(
        surface_width: u32,
        surface_height: u32,
        timing_supported: bool,
        timing_slots: usize,
    ) -> (renderer: Self)
        ensures
            crate::scalar::is_identity(renderer.view_state.view_matrix),
            !renderer.view_state.view_matrix_dirty,
            renderer.view_state.viewport is None,
            renderer.view_state.brush_command_quota == 0,
            renderer.view_state.drop_before_revision == 0,
            !renderer.view_state.present_requested,
            renderer.frame_state.bound_tree is None,
            renderer.frame_state.cached_render_tree is None,
            !renderer.frame_state.render_tree_dirty,
            renderer.frame_state.dirty_state_store@ == DirtyModel::clean(true),
            renderer.frame_state.frame_sync == (FrameSync {
                state_epoch: 0,
                last_committed_frame_id: None,
            }),
            renderer.frame_state.layer_dirty_versions@ == Map::<u64, u64>::empty(),
            renderer.cache_state.leaf_draw_cache@.dom() == Set::<u64>::empty(),
            renderer.cache_state.group_target_cache@.dom() == Set::<u64>::empty(),
            renderer.brush_work_state@ == BrushModel::initial(),
            renderer.brush_work_state@.inv(),
            renderer.merge_orchestrator@ == MergeModel::initial(),
            renderer.merge_orchestrator@.inv(),
            renderer.gpu_timing.supported == timing_supported,
            renderer.gpu_timing.slots@.len() == (if timing_supported {
                timing_slots as int
            } else {
                0
            }),
            forall|i: int|
                0 <= i < renderer.gpu_timing.slots@.len()
                    ==> #[trigger] renderer.gpu_timing.slots@[i] is Idle,
            renderer.gpu_timing.latest_report is None,
            renderer.surface_width == surface_width,
            renderer.surface_height == surface_height,
    {
        let renderer = Renderer {
            view_state: ViewState::new(),
            frame_state: FrameState::new(),
            cache_state: CacheState::new(),
            brush_work_state: BrushWorkState::default(),
            merge_orchestrator: MergeOrchestrator::default(),
            gpu_timing: GpuFrameTimingState::new(timing_supported, timing_slots),
            surface_width,
            surface_height,
        };
        proof {
            assert(renderer.cache_state.leaf_draw_cache@.dom() =~= Set::<u64>::empty());
            assert(renderer.cache_state.group_target_cache@.dom() =~= Set::<u64>::empty());
        }
        renderer
    }

    /// Binds tiles to the places of a stroke's buffer.
    pub fn bind_brush_buffer_tiles(
        &mut self,
        stroke_session_id: u64,
        tile_bindings: &Vec<(BufferTileCoordinate, TileKey)>,
        addresses: &KeyMap<TileKey, TileAddress>,
    ) -> (result: Result<(), BrushBindingFault>)
        requires
            old(self).brush_work_state@.inv(),
        ensures
            *final(self) == (Renderer {
                brush_work_state: final(self).brush_work_state,
                ..*old(self)
            }),
            final(self).brush_work_state@.inv(),
            match result {
                Ok(()) => crate::renderer::brush::bindings_fit(
                    old(self).brush_work_state@.tiles_of(stroke_session_id),
                    addresses@.dom(),
                    tile_bindings@,
                    tile_bindings@.len() as int,
                ) && final(self).brush_work_state@ == (BrushModel {
                    bound: old(self).brush_work_state@.bound.insert(
                        stroke_session_id,
                        crate::renderer::brush::with_bindings(
                            old(self).brush_work_state@.tiles_of(stroke_session_id),
                            tile_bindings@,
                        ),
                    ),
                    ..old(self).brush_work_state@
                }),
                Err(fault) => final(self).brush_work_state@ == old(self).brush_work_state@
                    && exists|i: int|
                    0 <= i < tile_bindings@.len() && crate::renderer::brush::bindings_fit(
                        old(self).brush_work_state@.tiles_of(stroke_session_id),
                        addresses@.dom(),
                        tile_bindings@,
                        i,
                    ) && crate::renderer::brush::explains(
                        fault,
                        crate::renderer::brush::with_bindings(
                            old(self).brush_work_state@.tiles_of(stroke_session_id),
                            #[trigger] tile_bindings@.take(i),
                        ),
                        addresses@.dom(),
                        tile_bindings@[i],
                    ),
            },
    {
        self.brush_work_state.bind_brush_buffer_tiles(stroke_session_id, tile_bindings, addresses)
    }

    /// Prepares or activates a brush program, or defines a reference set.
    pub fn apply_brush_control_command(&mut self, command: BrushControlCommand) -> (result: Result<
        BrushControlAck,
        BrushControlError,
    >)
        ensures
            *final(self) == (Renderer {
                brush_work_state: final(self).brush_work_state,
                ..*old(self)
            }),
            result == old(self).brush_work_state@.control_result(command),
            final(self).brush_work_state@ == old(self).brush_work_state@.controlled(command),
            old(self).brush_work_state@.inv() ==> final(self).brush_work_state@.inv(),
    {
        self.brush_work_state.apply_brush_control_command(command)
    }

    /// Accepts a brush command and queues it, or says why not.
    pub fn enqueue_brush_render_command(&mut self, command: BrushRenderCommand) -> (result: Result<
        (),
        BrushRenderEnqueueError,
    >)
        requires
            old(self).brush_work_state@.inv(),
            old(self).brush_work_state@.enqueue_error(command) is None
                ==> old(self).brush_work_state@.pending_dab_count + crate::renderer::brush::dabs_of(
                command,
            ) <= u64::MAX,
            command matches BrushRenderCommand::PushDabChunkF32(chunk) ==> chunk.inv(),
        ensures
            *final(self) == (Renderer {
                brush_work_state: final(self).brush_work_state,
                ..*old(self)
            }),
            final(self).brush_work_state@.inv(),
            match old(self).brush_work_state@.enqueue_error(command) {
                Some(error) => result == Err::<(), _>(error) && final(self).brush_work_state@
                    == old(self).brush_work_state@,
                None => result is Ok && final(self).brush_work_state@
                    == old(self).brush_work_state@.enqueued(command),
            },
    {
        self.brush_work_state.enqueue_brush_render_command(command)
    }

    pub fn pending_brush_dab_count(&self) -> (count: u64)
        ensures
            count == self.brush_work_state@.pending_dab_count,
    {
        self.brush_work_state.pending_brush_dab_count()
    }

    pub fn pending_brush_command_count(&self) -> (count: u64)
        ensures
            count == self.brush_work_state@.commands.len(),
    {
        self.brush_work_state.pending_brush_command_count()
    }

    /// Moves the time measurements on and hands out the latest report, once.
    /// The slots are those whose timestamps are to be mapped now, in order.
    pub fn take_latest_gpu_timing_report(&mut self, events: &Vec<TimingMapEvent>) -> (taken: (
        Option<FrameGpuTimingReport>,
        Vec<usize>,
    ))
        requires
            events@.len() == old(self).gpu_timing.slots@.len(),
        ensures
            *final(self) == (Renderer { gpu_timing: final(self).gpu_timing, ..*old(self) }),
            final(self).gpu_timing.supported == old(self).gpu_timing.supported,
            final(self).gpu_timing.latest_report is None,
            final(self).gpu_timing.slots@.len() == old(self).gpu_timing.slots@.len(),
            taken.0 == match (if old(self).gpu_timing.supported {
                crate::renderer::timing::last_report(
                    old(self).gpu_timing.slots@,
                    events@,
                    old(self).gpu_timing.slots@.len() as int,
                )
            } else {
                None
            }) {
                Some(report) => Some(report),
                None => old(self).gpu_timing.latest_report,
            },
            forall|i: int|
                0 <= i < old(self).gpu_timing.slots@.len()
                    ==> #[trigger] final(self).gpu_timing.slots@[i] == (
                if old(self).gpu_timing.supported {
                    crate::renderer::timing::slot_after(old(self).gpu_timing.slots@[i], events@[i])
                } else {
                    old(self).gpu_timing.slots@[i]
                }),
            taken.1@ == (if old(self).gpu_timing.supported {
                crate::renderer::timing::submitted_slots(
                    old(self).gpu_timing.slots@,
                    old(self).gpu_timing.slots@.len() as int,
                )
            } else {
                Seq::<usize>::empty()
            }),
    {
        let to_map = self.gpu_timing.poll_gpu_timing_reports(events);
        let report = self.gpu_timing.take_latest_report();
        (report, to_map)
    }

    /// Executes the brush commands of one frame, as far as the quota allows.
    pub fn consume_brush_batches_for_frame(&mut self) -> (result: Result<
        Vec<BrushWork>,
        BrushExecutionFault,
    >)
        requires
            old(self).brush_work_state@.inv(),
            old(self).view_state.brush_command_quota
                + old(self).brush_work_state@.carry_credit_dabs <= u32::MAX,
        ensures
            *final(self) == (Renderer {
                brush_work_state: final(self).brush_work_state,
                ..*old(self)
            }),
            final(self).brush_work_state@.inv(),
            ({
                let quota = old(self).view_state.brush_command_quota;
                let before = old(self).brush_work_state@;
                if quota == 0 {
                    final(self).brush_work_state@ == before && result is Ok
                        && result->Ok_0@.len() == 0
                } else {
                    let target = quota + before.carry_credit_dabs;
                    let (progress, fault) = crate::renderer::brush::started(before).run(target);
                    match fault {
                        Some(reason) => result == Err::<Vec<BrushWork>, _>(reason)
                            && final(self).brush_work_state@ == progress.model,
                        None => result is Ok && crate::collections::viewed_seq(result->Ok_0@)
                            == progress.work && final(self).brush_work_state@ == (BrushModel {
                            carry_credit_dabs: (target % (
                            crate::render_protocol::BRUSH_DAB_CHUNK_CAPACITY as int)) as u8,
                            ..progress.model
                        }),
                    }
                }
            }),
    {
        let quota: u32 = self.view_state.brush_command_quota;
        self.brush_work_state.consume_brush_batches_for_frame(quota)
    }

    pub fn enqueue_planned_merge(
        &mut self,
        receipt: StrokeExecutionReceipt,
        gpu_merge_ops: Vec<GpuMergeOp>,
        meta: MergePlanMeta,
    ) -> (result: Result<(), MergeEnqueueError>)
        requires
            old(self).merge_orchestrator@.inv(),
        ensures
            *final(self) == (Renderer {
                merge_orchestrator: final(self).merge_orchestrator,
                ..*old(self)
            }),
            final(self).merge_orchestrator@.inv(),
            match old(self).merge_orchestrator@.enqueue_error(receipt, gpu_merge_ops@, meta) {
                Some(error) => result == Err::<(), _>(error) && final(self).merge_orchestrator@
                    == old(self).merge_orchestrator@,
                None => result is Ok && final(self).merge_orchestrator@
                    == old(self).merge_orchestrator@.enqueued(receipt, gpu_merge_ops@),
            },
    {
        self.merge_orchestrator.enqueue_planned_merge(receipt, gpu_merge_ops, meta)
    }
}

/// What comes of submitting pending merges. The steps are for the device,
/// whatever the result: those before an operation that cannot be performed are
/// still performed.
pub struct MergeSubmission {
    pub steps: Vec<MergeStep>,
    pub result: Result<SubmissionReport, MergeSubmitError>,
}

impl Renderer {
    /// Submits up to `budget` of the planned merges, oldest first. When an
    /// operation cannot be performed, the merges stay planned.
    pub fn submit_pending_merges(
        &mut self,
        frame_id: u64,
        budget: u32,
        atlases: MergeAtlases,
    ) -> (submission: MergeSubmission)
        requires
            old(self).merge_orchestrator@.inv(),
            budget > 0 && old(self).merge_orchestrator@.pending.len() > 0
                ==> old(self).merge_orchestrator@.next_submission_id < u64::MAX,
        ensures
            *final(self) == (Renderer {
                merge_orchestrator: final(self).merge_orchestrator,
                ..*old(self)
            }),
            final(self).merge_orchestrator@.inv(),
            ({
                let before = old(self).merge_orchestrator@;
                let after = final(self).merge_orchestrator@;
                if budget == 0 {
                    &&& submission.result == Err::<SubmissionReport, _>(MergeSubmitError::ZeroBudget)
                    &&& submission.steps@.len() == 0
                    &&& after == before
                } else if before.pending.len() == 0 {
                    &&& submission.result is Ok
                    &&& submission.result->Ok_0.frame_id == frame_id
                    &&& submission.result->Ok_0.renderer_submission_id is None
                    &&& submission.result->Ok_0.receipt_ids@.len() == 0
                    &&& submission.steps@.len() == 0
                    &&& after == before
                } else {
                    let id = RendererSubmissionId(before.next_submission_id);
                    let ids = before.batch(budget);
                    let ops = crate::renderer::merge::batch_ops(before.receipts, ids);
                    let numbered = MergeModel {
                        next_submission_id: (before.next_submission_id + 1) as u64,
                        ..before
                    };
                    &&& crate::renderer::merge_submission::plan_fits(
                        submission.steps@,
                        match submission.result {
                            Ok(_) => None,
                            Err(error) => Some(error),
                        },
                        id,
                        ops,
                        atlases,
                    )
                    &&& match submission.result {
                        Ok(report) => {
                            &&& report.frame_id == frame_id
                            &&& report.renderer_submission_id == Some(id)
                            &&& report.receipt_ids@ == ids
                            &&& after == numbered.committed(id, frame_id, ids)
                        },
                        Err(_) => after == numbered,
                    }
                }
            }),
    {
        let prepared = match self.merge_orchestrator.prepare_pending_submission(frame_id, budget) {
            Ok(prepared) => prepared,
            Err(error) => {
                return MergeSubmission { steps: Vec::new(), result: Err(error) };
            },
        };
        match prepared.report.renderer_submission_id {
            None => MergeSubmission { steps: Vec::new(), result: Ok(prepared.report) },
            Some(renderer_submission_id) => {
                let plan = plan_merge_submission(
                    renderer_submission_id,
                    &prepared.submission_gpu_ops,
                    atlases,
                );
                match plan.error {
                    Some(error) => MergeSubmission { steps: plan.steps, result: Err(error) },
                    None => {
                        let report = self.merge_orchestrator.commit_submitted_submission(prepared);
                        MergeSubmission { steps: plan.steps, result: Ok(report) }
                    },
                }
            },
        }
    }

    /// Takes in what polling the device has brought to light.
    pub fn poll_completion_notices(&mut self, frame_id: u64, poll: DevicePoll) -> (result: Result<
        Vec<MergeCompletionNotice>,
        MergePollError,
    >)
        requires
            old(self).merge_orchestrator@.inv(),
            poll.signals@.len() == old(self).merge_orchestrator@.in_flight.len(),
        ensures
            *final(self) == (Renderer {
                merge_orchestrator: final(self).merge_orchestrator,
                ..*old(self)
            }),
            final(self).merge_orchestrator@.inv(),
            ({
                let before = old(self).merge_orchestrator@;
                let collected = before.collect(before.polled(frame_id, poll));
                &&& final(self).merge_orchestrator@ == before.after_poll(frame_id, poll)
                &&& match result {
                    Ok(notices) => collected.error is None && crate::collections::viewed_seq(
                        notices@,
                    ) == collected.notices,
                    Err(error) => collected.error == Some(error),
                }
            }),
    {
        self.merge_orchestrator.poll_completion_notices(frame_id, poll)
    }

    pub fn ack_merge_result(&mut self, notice: MergeCompletionNotice) -> (result: Result<
        (),
        MergeAckError,
    >)
        requires
            old(self).merge_orchestrator@.inv(),
        ensures
            *final(self) == (Renderer {
                merge_orchestrator: final(self).merge_orchestrator,
                ..*old(self)
            }),
            final(self).merge_orchestrator@.inv(),
            match old(self).merge_orchestrator@.ack_error(notice@) {
                Some(error) => result == Err::<(), _>(error) && final(self).merge_orchestrator@
                    == old(self).merge_orchestrator@,
                None => result is Ok && final(self).merge_orchestrator@
                    == old(self).merge_orchestrator@.acked(notice@),
            },
    {
        self.merge_orchestrator.ack_merge_result(notice)
    }

    pub fn drain_receipt_progress_events(&mut self, frame_id: u64) -> (events: Vec<ReceiptProgress>)
        requires
            old(self).merge_orchestrator@.inv(),
        ensures
            *final(self) == (Renderer {
                merge_orchestrator: final(self).merge_orchestrator,
                ..*old(self)
            }),
            final(self).merge_orchestrator@.inv(),
            crate::collections::viewed_seq(events@) == old(self).merge_orchestrator@.progress,
            final(self).merge_orchestrator@ == (MergeModel {
                progress: Seq::empty(),
                ..old(self).merge_orchestrator@
            }),
    {
        self.merge_orchestrator.drain_receipt_progress_events(frame_id)
    }

    pub fn ack_receipt_terminal_state(
        &mut self,
        receipt_id: StrokeExecutionReceiptId,
        terminal_state: ReceiptTerminalState,
    ) -> (result: Result<(), MergeFinalizeError>)
        requires
            old(self).merge_orchestrator@.inv(),
        ensures
            *final(self) == (Renderer {
                merge_orchestrator: final(self).merge_orchestrator,
                ..*old(self)
            }),
            final(self).merge_orchestrator@.inv(),
            match old(self).merge_orchestrator@.finalize_error(receipt_id, terminal_state) {
                Some(error) => result == Err::<(), _>(error) && final(self).merge_orchestrator@
                    == old(self).merge_orchestrator@,
                None => result is Ok && final(self).merge_orchestrator@
                    == old(self).merge_orchestrator@.finalized(receipt_id),
            },
    {
        self.merge_orchestrator.ack_receipt_terminal_state(receipt_id, terminal_state)
    }

    pub fn take_succeeded_receipts(&mut self) -> (receipts: Vec<StrokeExecutionReceipt>)
        requires
            old(self).merge_orchestrator@.inv(),
        ensures
            *final(self) == (Renderer {
                merge_orchestrator: final(self).merge_orchestrator,
                ..*old(self)
            }),
            final(self).merge_orchestrator@.inv(),
            receipts@ == old(self).merge_orchestrator@.succeeded,
            final(self).merge_orchestrator@ == (MergeModel {
                succeeded: Seq::empty(),
                ..old(self).merge_orchestrator@
            }),
    {
        self.merge_orchestrator.take_succeeded_receipts()
    }

    pub fn take_failed_receipts(&mut self) -> (failures: Vec<StrokeExecutionFailure>)
        requires
            old(self).merge_orchestrator@.inv(),
        ensures
            *final(self) == (Renderer {
                merge_orchestrator: final(self).merge_orchestrator,
                ..*old(self)
            }),
            final(self).merge_orchestrator@.inv(),
            crate::collections::viewed_seq(failures@) == old(self).merge_orchestrator@.failed,
            final(self).merge_orchestrator@ == (MergeModel {
                failed: Seq::empty(),
                ..old(self).merge_orchestrator@
            }),
    {
        self.merge_orchestrator.take_failed_receipts()
    }

    /// Applies an operation, and gives the cached groups that it gives up.
    pub fn apply_view_op(&mut self, operation: RenderOp) -> (released: KeyMap<
        u64,
        GroupTargetCacheEntry,
    >)
        requires
            old(self).side().applicable(operation),
        ensures
            *final(self) == (Renderer {
                view_state: final(self).view_state,
                frame_state: final(self).frame_state,
                cache_state: final(self).cache_state,
                ..*old(self)
            }),
            final(self).side() == old(self).side().applied(operation),
            released@ == old(self).side().released_by(operation),
    {
        apply_view_op(
            &mut self.view_state,
            &mut self.frame_state,
            &mut self.cache_state,
            operation,
        )
    }

    /// What view operations read and change.
    pub open spec fn side(&self) -> ViewSide {
        crate::renderer::view_ops::view_side(self.view_state, self.frame_state, self.cache_state)
    }

    /// Applies the operations that have come in, in order, and gives what each
    /// of them gives up.
    pub fn drain_view_ops(&mut self, operations: VecDeque<RenderOp>) -> (released: Vec<
        KeyMap<u64, GroupTargetCacheEntry>,
    >)
        requires
            forall|i: int|
                0 <= i < operations@.len() ==> old(self).side().applied_all(
                    #[trigger] operations@.take(i),
                ).applicable(operations@[i]),
        ensures
            *final(self) == (Renderer {
                view_state: final(self).view_state,
                frame_state: final(self).frame_state,
                cache_state: final(self).cache_state,
                ..*old(self)
            }),
            final(self).side() == old(self).side().applied_all(operations@),
            released@.len() == operations@.len(),
            forall|i: int|
                0 <= i < released@.len() ==> #[trigger] released@[i]@
                    == old(self).side().applied_all(operations@.take(i)).released_by(
                    operations@[i],
                ),
    {
        apply_view_ops(
            &mut self.view_state,
            &mut self.frame_state,
            &mut self.cache_state,
            operations,
        )
    }

    /// Tells whether a frame has been asked for since this was last called.
    pub fn take_present_request(&mut self) -> (requested: bool)
        ensures
            requested == old(self).view_state.present_requested,
            *final(self) == (Renderer {
                view_state: ViewState { present_requested: false, ..old(self).view_state },
                ..*old(self)
            }),
    {
        let requested = self.view_state.present_requested;
        self.view_state.present_requested = false;
        requested
    }

    pub fn brush_command_quota(&self) -> (quota: u32)
        ensures
            quota == self.view_state.brush_command_quota,
    {
        self.view_state.brush_command_quota
    }

    pub fn viewport(&self) -> (viewport: Option<Viewport>)
        ensures
            viewport == self.view_state.viewport,
    {
        self.view_state.viewport
    }

    pub fn bound_tree(&self) -> (tree: Option<&RenderTreeSnapshot>)
        ensures
            match tree {
                Some(snapshot) => self.frame_state.bound_tree == Some(*snapshot),
                None => self.frame_state.bound_tree is None,
            },
    {
        self.frame_state.bound_tree.as_ref()
    }

    pub fn view_matrix(&self) -> (matrix: TransformMatrix4x4)
        ensures
            matrix == self.view_state.view_matrix,
    {
        self.view_state.view_matrix
    }

    /// Marks a rectangle of a layer dirty. If that says something new, frames
    /// that were planned before are outdated.
    pub fn mark_layer_dirty_rect(&mut self, layer_id: u64, dirty_rect: DirtyRect)
        requires
            old(self).side().marks.takes(layer_id, dirty_rect)
                ==> old(self).frame_state.frame_sync.state_epoch < u64::MAX,
        ensures
            *final(self) == (Renderer { frame_state: final(self).frame_state, ..*old(self) }),
            ({
                let before = old(self).side();
                final(self).side() == (ViewSide {
                    marks: before.marks.with_rect(layer_id, dirty_rect),
                    sync: if before.marks.takes(layer_id, dirty_rect) {
                        (FrameSync {
                            state_epoch: (before.sync.state_epoch + 1) as u64,
                            ..before.sync
                        })
                    } else {
                        before.sync
                    },
                    ..before
                })
            }),
    {
        if self.frame_state.dirty_state_store.mark_layer_rect(layer_id, dirty_rect) {
            self.frame_state.frame_sync.note_state_change();
        }
    }

    /// Gives the surface another size, of at least one pixel each way. If that
    /// changes it, the surface is to be configured anew, and frames that were
    /// planned before are outdated.
    pub fn resize(&mut self, width: u32, height: u32) -> (reconfigure: bool)
        requires
            old(self).surface_width != at_least_one(width) || old(self).surface_height
                != at_least_one(height) ==> old(self).frame_state.frame_sync.state_epoch < u64::MAX,
        ensures
            reconfigure == (old(self).surface_width != at_least_one(width)
                || old(self).surface_height != at_least_one(height)),
            final(self).surface_width == at_least_one(width),
            final(self).surface_height == at_least_one(height),
            *final(self) == (Renderer {
                surface_width: final(self).surface_width,
                surface_height: final(self).surface_height,
                frame_state: FrameState {
                    frame_sync: FrameSync {
                        state_epoch: if reconfigure {
                            (old(self).frame_state.frame_sync.state_epoch + 1) as u64
                        } else {
                            old(self).frame_state.frame_sync.state_epoch
                        },
                        ..old(self).frame_state.frame_sync
                    },
                    ..old(self).frame_state
                },
                ..*old(self)
            }),
    {
        let width: u32 = if width == 0 {
            1
        } else {
            width
        };
        let height: u32 = if height == 0 {
            1
        } else {
            height
        };
        if self.surface_width == width && self.surface_height == height {
            return false;
        }
        self.surface_width = width;
        self.surface_height = height;
        self.frame_state.frame_sync.note_state_change();
        true
    }

    /// Plans a frame.
    pub fn build_frame_plan<R: RenderDataResolver>(
        &mut self,
        render_data_resolver: &R,
        frame_id: u64,
    ) -> (plan: FramePlan)
        requires
            render_data_resolver.size().0 > 0,
            render_data_resolver.size().1 > 0,
            ({
                let grid = crate::renderer::geometry::group_grid(
                    render_data_resolver.size().0,
                    render_data_resolver.size().1,
                );
                grid.0 * grid.1 <= u32::MAX
            }),
        ensures
            *final(self) == (Renderer { frame_state: final(self).frame_state, ..*old(self) }),
            ({
                let before = old(self).frame_state;
                let after = final(self).frame_state;
                &&& plan.render_tree == crate::renderer::frame::current_tree(before)
                &&& plan.version == (FrameVersion {
                    frame_id,
                    snapshot_revision: before.revision(),
                    state_epoch: before.frame_sync.state_epoch,
                })
                &&& crate::renderer::frame::composite_model(plan.composite_plan)
                    == crate::renderer::frame::frame_composite(
                    render_data_resolver,
                    crate::renderer::frame::shared_tree(plan.render_tree),
                    after.dirty_state_store@,
                    old(self).cache_state,
                )
                &&& match plan.render_tree {
                    Some(tree) => crate::renderer::frame::follows_history(
                        render_data_resolver,
                        *tree,
                        before.layer_dirty_versions@,
                        before.dirty_state_store@,
                        after.dirty_state_store@,
                    ) && after.layer_dirty_versions@ == crate::renderer::frame::versions_after(
                        render_data_resolver,
                        *tree,
                        before.layer_dirty_versions@,
                    ),
                    None => after.dirty_state_store == before.dirty_state_store
                        && after.layer_dirty_versions == before.layer_dirty_versions,
                }
                &&& after.bound_tree == before.bound_tree
                &&& after.cached_render_tree is None
                &&& !after.render_tree_dirty
                &&& after.frame_sync == before.frame_sync
            }),
    {
        build_frame_plan(&mut self.frame_state, &self.cache_state, render_data_resolver, frame_id)
    }

    /// The identifier of the frame after the last one that was committed.
    pub fn next_frame_id(&self) -> (frame_id: u64)
        ensures
            frame_id == match self.frame_state.frame_sync.last_committed_frame_id {
                Some(last) => if last < u64::MAX {
                    (last + 1) as u64
                } else {
                    u64::MAX
                },
                None => 0,
            },
    {
        next_frame_id(&self.frame_state)
    }

    /// The state in which a frame is composed.
    pub open spec fn composing(
        &self,
        addresses: Map<TileKey, TileAddress>,
        fresh: Seq<FreshTile>,
    ) -> CompositeModel {
        crate::renderer::frame_laws::composed_from(
            self.side(),
            GroupTilesModel { addresses, fresh },
        )
    }

    /// Carries out the plan of a frame: brings the caches up to date and lists
    /// the steps for the device. The view matrix counts as taken over
    /// afterwards, since the document is drawn with it.
    pub fn execute_frame_plan<R: RenderDataResolver>(
        &mut self,
        frame_plan: FramePlan,
        render_data_resolver: &R,
        cache_extent: CopyExtent,
        group_tiles: GroupTiles,
    ) -> (result: Result<FrameExecution, CompositeFault>)
        requires
            crate::renderer::composite::resolves(render_data_resolver),
            crate::renderer::composite::extent_fits(cache_extent),
            old(self).composing(group_tiles.addresses@, group_tiles.fresh@).inv(),
        ensures
            match crate::renderer::frame::composite_model(frame_plan.composite_plan) {
                None => *final(self) == *old(self) && result is Ok
                    && result->Ok_0.actions@.len() == 0
                    && result->Ok_0.group_tiles == group_tiles && result->Ok_0.outcome == (
                FrameExecutionResult {
                    version: frame_plan.version,
                    render_tree: frame_plan.render_tree,
                }),
                Some(plan) => match crate::renderer::composite::rendered(
                    render_data_resolver,
                    cache_extent,
                    plan,
                    CompositeEmission::CacheOnly,
                    old(self).composing(group_tiles.addresses@, group_tiles.fresh@),
                ) {
                    Err(fault) => result == Err::<FrameExecution, _>(fault),
                    Ok(after) => {
                        &&& result is Ok
                        &&& result->Ok_0.outcome == (FrameExecutionResult {
                            version: frame_plan.version,
                            render_tree: frame_plan.render_tree,
                        })
                        &&& after == (CompositeModel {
                            actions: crate::collections::viewed_seq(result->Ok_0.actions@),
                            ..final(self).composing(
                                result->Ok_0.group_tiles.addresses@,
                                result->Ok_0.group_tiles.fresh@,
                            )
                        })
                        &&& after.inv()
                        &&& *final(self) == (Renderer {
                            cache_state: final(self).cache_state,
                            view_state: ViewState {
                                view_matrix_dirty: false,
                                ..old(self).view_state
                            },
                            ..*old(self)
                        })
                        &&& crate::renderer::draw_builders::all_indexed(old(self).side().leaves)
                            ==> crate::renderer::draw_builders::all_indexed(
                            final(self).side().leaves,
                        )
                    },
                },
            },
    {
        let FramePlan { version, render_tree, composite_plan } = frame_plan;
        let outcome = FrameExecutionResult { version, render_tree };
        match composite_plan {
            None => Ok(
                FrameExecution {
                    outcome,
                    actions: Vec::new(),
                    group_tiles,
                },
            ),
            Some(plan) => {
                let ghost start = self.composing(group_tiles.addresses@, group_tiles.fresh@);
                let mut cache = CacheState::new();
                std::mem::swap(&mut cache, &mut self.cache_state);
                let mut run = CompositeRun {
                    cache,
                    addresses: group_tiles.addresses,
                    fresh: group_tiles.fresh,
                    actions: Vec::new(),
                };
                proof {
                    assert(run@ =~= start);
                }
                match render_composite_node_plan(
                    &mut run,
                    render_data_resolver,
                    cache_extent,
                    &plan,
                    CompositeEmission::CacheOnly,
                ) {
                    Ok(()) => {},
                    Err(fault) => {
                        return Err(fault);
                    },
                }
                let CompositeRun { cache, addresses, fresh, actions } = run;
                self.cache_state = cache;
                self.view_state.view_matrix_dirty = false;
                Ok(
                    FrameExecution {
                        outcome,
                        actions,
                        group_tiles: GroupTiles { addresses, fresh },
                    },
                )
            },
        }
    }

    /// Commits a frame: nothing is dirty any more.
    pub fn commit_frame_result(&mut self, frame_result: FrameExecutionResult)
        requires
            old(self).frame_state.frame_sync.allows(
                frame_result.version,
                old(self).frame_state.revision(),
            ),
        ensures
            *final(self) == (Renderer { frame_state: final(self).frame_state, ..*old(self) }),
            final(self).side() == (ViewSide {
                cached: frame_result.render_tree,
                marks: DirtyModel::clean(false),
                sync: FrameSync {
                    last_committed_frame_id: Some(frame_result.version.frame_id),
                    ..old(self).side().sync
                },
                ..old(self).side()
            }),
    {
        commit_frame_result(&mut self.frame_state, frame_result);
    }
}

/// What comes of carrying out the plan of a frame.
pub struct FrameExecution {
    pub outcome: FrameExecutionResult,
    /// The steps for the device, in order.
    pub actions: Vec<CompositeAction>,
    pub group_tiles: GroupTiles,
}

} // verus!
