//! Merge submission and receipt orchestration.
//!
//! A stroke that has been drawn into a buffer is merged into its layer on the
//! device. Each merge is tracked by a receipt. The orchestrator queues planned
//! merges, hands them out in submissions, turns completed submissions into
//! notices, and moves a receipt to its end once its notice is acknowledged.
use std::collections::VecDeque;
use vstd::prelude::*;
use vstd::string::StringExecFns;

use crate::collections::KeyMap;
use crate::render_protocol::{
    ExecutionStatus, GpuMergeOp, GpuTileRef, MergeAuditMeta, MergeErrorContext,
    MergeExecutionResult, MergeOpStage, MergePlanMeta, ReceiptProgress, ReceiptTerminalState,
    RendererSubmissionId, StrokeExecutionFailure, StrokeExecutionReceipt, StrokeExecutionReceiptId,
    SubmissionReport,
};
use crate::text::{decimal, join};

verus! {

broadcast use crate::collections::group_viewed;

#[derive(Debug, Clone, Copy, PartialEq, Eq, Structural)]
pub enum MergeEnqueueError {
    DuplicateReceipt { receipt_id: StrokeExecutionReceiptId },
    EmptyMergeOps { receipt_id: StrokeExecutionReceiptId },
    ReceiptMetaMismatch {
        receipt_id: StrokeExecutionReceiptId,
        receipt_stroke_session_id: u64,
        meta_stroke_session_id: u64,
        receipt_tx_token: u64,
        meta_tx_token: u64,
    },
}

#[derive(Debug, Clone, Copy, PartialEq, Eq)]
pub enum MergeSubmitError {
    ZeroBudget,
    UnknownReceipt { receipt_id: StrokeExecutionReceiptId },
    IllegalState { receipt_id: StrokeExecutionReceiptId, state: &'static str },
    DuplicateSubmissionInFlight { renderer_submission_id: RendererSubmissionId },
    UnknownSubmission { renderer_submission_id: RendererSubmissionId },
    InvalidGpuMergeOp {
        renderer_submission_id: RendererSubmissionId,
        receipt_id: Option<StrokeExecutionReceiptId>,
        op_trace_id: u64,
        reason: &'static str,
        tile_ref: Option<GpuTileRef>,
        tile_ref_role: Option<MergeTileRefRole>,
    },
}

#[derive(Debug, Clone, Copy, PartialEq, Eq, Structural)]
pub enum MergeTileRefRole {
    Base,
    Stroke,
    Output,
}

#[derive(Debug, Clone, Copy, PartialEq, Eq, Structural)]
pub enum MergePollError {
    UnknownSubmission { renderer_submission_id: RendererSubmissionId },
    DuplicateAckableNotice { receipt_id: StrokeExecutionReceiptId },
}

/// Tells that the merge of a receipt is over, and how it ended.
#[derive(Debug, Clone, PartialEq, Eq)]
pub struct MergeCompletionNotice {
    pub receipt_id: StrokeExecutionReceiptId,
    pub audit_meta: MergeAuditMeta,
    pub result: MergeExecutionResult,
}

#[derive(Debug, Clone, Copy, PartialEq, Eq)]
pub enum MergeAckError {
    NoticeNotAckable { receipt_id: StrokeExecutionReceiptId },
    NoticeMismatch { receipt_id: StrokeExecutionReceiptId },
    UnknownReceipt { receipt_id: StrokeExecutionReceiptId },
    UnknownSubmission {
        receipt_id: StrokeExecutionReceiptId,
        renderer_submission_id: RendererSubmissionId,
    },
    ReceiptSubmissionMismatch {
        receipt_id: StrokeExecutionReceiptId,
        expected_submission_id: RendererSubmissionId,
        received_submission_id: RendererSubmissionId,
    },
    ReceiptNotInSubmission {
        receipt_id: StrokeExecutionReceiptId,
        renderer_submission_id: RendererSubmissionId,
    },
    IllegalState { receipt_id: StrokeExecutionReceiptId, state: &'static str },
}

#[derive(Debug, Clone, Copy, PartialEq, Eq)]
pub enum MergeFinalizeError {
    UnknownReceipt { receipt_id: StrokeExecutionReceiptId },
    SubmissionStillInFlight {
        receipt_id: StrokeExecutionReceiptId,
        renderer_submission_id: RendererSubmissionId,
    },
    IllegalTransition {
        receipt_id: StrokeExecutionReceiptId,
        state: &'static str,
        terminal_state: ReceiptTerminalState,
    },
}

/// How far the merge of a receipt has come.
#[derive(Debug, Clone, Copy, PartialEq, Eq, Structural)]
pub enum MergeReceiptState {
    Planned,
    Submitted { renderer_submission_id: RendererSubmissionId, frame_id: u64 },
    Pending { renderer_submission_id: RendererSubmissionId, frame_id: u64 },
    Succeeded,
    Failed,
}

impl MergeReceiptState {
    pub open spec fn name(self) -> &'static str {
        match self {
            MergeReceiptState::Planned => "Planned",
            MergeReceiptState::Submitted { .. } => "Submitted",
            MergeReceiptState::Pending { .. } => "Pending",
            MergeReceiptState::Succeeded => "Succeeded",
            MergeReceiptState::Failed => "Failed",
        }
    }

    /// The name of the state, for messages.
    pub fn label(&self) -> (label: &'static str)
        ensures
            label == self.name(),
    {
        match self {
            MergeReceiptState::Planned => "Planned",
            MergeReceiptState::Submitted { .. } => "Submitted",
            MergeReceiptState::Pending { .. } => "Pending",
            MergeReceiptState::Succeeded => "Succeeded",
            MergeReceiptState::Failed => "Failed",
        }
    }

    /// The submission that a submitted or pending merge belongs to.
    pub open spec fn submission(self) -> Option<RendererSubmissionId> {
        match self {
            MergeReceiptState::Submitted { renderer_submission_id, .. } => Some(
                renderer_submission_id,
            ),
            MergeReceiptState::Pending { renderer_submission_id, .. } => Some(
                renderer_submission_id,
            ),
            _ => None,
        }
    }
}

#[derive(Debug)]
pub struct MergeReceiptEntry {
    receipt: StrokeExecutionReceipt,
    gpu_merge_ops: Vec<GpuMergeOp>,
    state: MergeReceiptState,
}

/// What is known of one receipt.
#[verifier::ext_equal]
pub struct ReceiptModel {
    pub receipt: StrokeExecutionReceipt,
    pub ops: Seq<GpuMergeOp>,
    pub state: MergeReceiptState,
}

impl View for MergeReceiptEntry {
    type V = ReceiptModel;

    closed spec fn view(&self) -> ReceiptModel {
        ReceiptModel { receipt: self.receipt, ops: self.gpu_merge_ops@, state: self.state }
    }
}

#[derive(Debug)]
pub struct SubmissionEntry {
    frame_id: u64,
    receipt_ids: Vec<StrokeExecutionReceiptId>,
}

/// One submission: the frame that made it and the receipts that it carries.
#[verifier::ext_equal]
pub struct SubmissionModel {
    pub frame_id: u64,
    pub receipt_ids: Seq<StrokeExecutionReceiptId>,
}

impl View for SubmissionEntry {
    type V = SubmissionModel;

    closed spec fn view(&self) -> SubmissionModel {
        SubmissionModel { frame_id: self.frame_id, receipt_ids: self.receipt_ids@ }
    }
}

/// One merge operation of a submission.
#[derive(Debug, Clone, Copy, PartialEq)]
pub struct SubmissionGpuOp {
    pub receipt_id: StrokeExecutionReceiptId,
    pub gpu_merge_op: GpuMergeOp,
}

/// A submission that has been put together and not yet committed.
#[derive(Debug, Clone)]
pub struct PreparedSubmission {
    pub report: SubmissionReport,
    pub submission_gpu_ops: Vec<SubmissionGpuOp>,
}

/// A submission that the device is working on.
#[derive(Debug, Clone, Copy, PartialEq, Eq, Structural)]
pub struct InFlightSubmission {
    pub renderer_submission_id: RendererSubmissionId,
    pub frame_id: u64,
}

/// Why a device was lost.
#[derive(Debug, Clone, Copy, PartialEq, Eq, Structural)]
pub enum DeviceLostReason {
    Unknown,
    Destroyed,
}

/// How the work of a submission ended on the device.
#[derive(Debug, Clone, PartialEq, Eq)]
pub enum GpuSubmissionCompletion {
    Completed,
    CallbackDisconnected,
    DeviceError { message: String },
    Lost { reason: DeviceLostReason, message: String },
}

/// A submission that is over.
#[derive(Debug, Clone, PartialEq, Eq)]
pub struct CompletedSubmission {
    pub renderer_submission_id: RendererSubmissionId,
    pub frame_id: u64,
    pub completion: GpuSubmissionCompletion,
}

impl DeviceLostReason {
    pub open spec fn name(self) -> &'static str {
        match self {
            DeviceLostReason::Unknown => "Unknown",
            DeviceLostReason::Destroyed => "Destroyed",
        }
    }

    fn label(self) -> (label: &'static str)
        ensures
            label == self.name(),
    {
        match self {
            DeviceLostReason::Unknown => "Unknown",
            DeviceLostReason::Destroyed => "Destroyed",
        }
    }
}

/// The outcome of a merge: the message of a failure, or nothing for success.
pub type Outcome = Option<Seq<char>>;

/// How the work of a submission ended on the device.
#[verifier::ext_equal]
pub enum CompletionModel {
    Completed,
    CallbackDisconnected,
    DeviceError { message: Seq<char> },
    Lost { reason: DeviceLostReason, message: Seq<char> },
}

impl CompletionModel {
    /// The outcome that the receipts of the submission are told.
    pub open spec fn outcome(&self) -> Outcome {
        match *self {
            CompletionModel::Completed => None,
            CompletionModel::CallbackDisconnected => Some(
                "merge submission callback disconnected"@,
            ),
            CompletionModel::DeviceError { message } => Some(message),
            CompletionModel::Lost { reason, message } => Some(
                "gpu device lost ("@ + reason.name()@ + "): "@ + message,
            ),
        }
    }
}

impl View for GpuSubmissionCompletion {
    type V = CompletionModel;

    open spec fn view(&self) -> CompletionModel {
        match self {
            GpuSubmissionCompletion::Completed => CompletionModel::Completed,
            GpuSubmissionCompletion::CallbackDisconnected => CompletionModel::CallbackDisconnected,
            GpuSubmissionCompletion::DeviceError { message } => CompletionModel::DeviceError {
                message: message@,
            },
            GpuSubmissionCompletion::Lost { reason, message } => CompletionModel::Lost {
                reason: *reason,
                message: message@,
            },
        }
    }
}

/// A submission that is over.
#[verifier::ext_equal]
pub struct CompletedModel {
    pub renderer_submission_id: RendererSubmissionId,
    pub frame_id: u64,
    pub completion: CompletionModel,
}

impl View for CompletedSubmission {
    type V = CompletedModel;

    open spec fn view(&self) -> CompletedModel {
        CompletedModel {
            renderer_submission_id: self.renderer_submission_id,
            frame_id: self.frame_id,
            completion: self.completion@,
        }
    }
}

/// A completion notice.
#[verifier::ext_equal]
pub struct NoticeModel {
    pub receipt_id: StrokeExecutionReceiptId,
    pub audit_meta: MergeAuditMeta,
    pub outcome: Outcome,
}

impl View for MergeExecutionResult {
    type V = Outcome;

    open spec fn view(&self) -> Outcome {
        match self {
            MergeExecutionResult::Succeeded => None,
            MergeExecutionResult::Failed { message } => Some(message@),
        }
    }
}

impl View for MergeCompletionNotice {
    type V = NoticeModel;

    open spec fn view(&self) -> NoticeModel {
        NoticeModel {
            receipt_id: self.receipt_id,
            audit_meta: self.audit_meta,
            outcome: self.result@,
        }
    }
}

/// What a failed merge is reported with.
#[verifier::ext_equal]
pub struct ErrorContextModel {
    pub receipt_id: StrokeExecutionReceiptId,
    pub stroke_session_id: u64,
    pub tx_token: u64,
    pub frame_id: u64,
    pub renderer_submission_id: RendererSubmissionId,
    pub op_stage: MergeOpStage,
    pub message: Seq<char>,
}

impl View for MergeErrorContext {
    type V = ErrorContextModel;

    open spec fn view(&self) -> ErrorContextModel {
        ErrorContextModel {
            receipt_id: self.receipt_id,
            stroke_session_id: self.stroke_session_id,
            tx_token: self.tx_token,
            frame_id: self.frame_id,
            renderer_submission_id: self.renderer_submission_id,
            op_stage: self.op_stage,
            message: self.message@,
        }
    }
}

/// A failed receipt.
#[verifier::ext_equal]
pub struct FailureModel {
    pub receipt: StrokeExecutionReceipt,
    pub error_ctx: ErrorContextModel,
}

impl View for StrokeExecutionFailure {
    type V = FailureModel;

    open spec fn view(&self) -> FailureModel {
        FailureModel { receipt: self.receipt, error_ctx: self.error_ctx@ }
    }
}

/// The status that a progress event tells.
#[verifier::ext_equal]
pub enum StatusModel {
    Pending,
    Succeeded,
    Failed(ErrorContextModel),
}

impl View for ExecutionStatus {
    type V = StatusModel;

    open spec fn view(&self) -> StatusModel {
        match self {
            ExecutionStatus::Pending => StatusModel::Pending,
            ExecutionStatus::Succeeded => StatusModel::Succeeded,
            ExecutionStatus::Failed(error_ctx) => StatusModel::Failed(error_ctx@),
        }
    }
}

/// A progress event.
#[verifier::ext_equal]
pub struct ProgressModel {
    pub receipt: StrokeExecutionReceipt,
    pub status: StatusModel,
}

impl View for ReceiptProgress {
    type V = ProgressModel;

    open spec fn view(&self) -> ProgressModel {
        ProgressModel { receipt: self.receipt, status: self.status@ }
    }
}

/// The state of the orchestrator.
#[verifier::ext_equal]
pub struct MergeModel {
    pub next_submission_id: u64,
    pub receipts: Map<StrokeExecutionReceiptId, ReceiptModel>,
    pub pending: Seq<StrokeExecutionReceiptId>,
    pub submissions: Map<RendererSubmissionId, SubmissionModel>,
    pub in_flight: Seq<InFlightSubmission>,
    pub ackable: Map<StrokeExecutionReceiptId, NoticeModel>,
    pub progress: Seq<ProgressModel>,
    pub succeeded: Seq<StrokeExecutionReceipt>,
    pub failed: Seq<FailureModel>,
}

/// Tracks every merge from its planning to its end.
#[derive(Debug)]
pub struct MergeOrchestrator {
    next_submission_id: u64,
    receipts: KeyMap<StrokeExecutionReceiptId, MergeReceiptEntry>,
    pending_receipts: VecDeque<StrokeExecutionReceiptId>,
    submissions: KeyMap<RendererSubmissionId, SubmissionEntry>,
    in_flight_submissions: Vec<InFlightSubmission>,
    ackable_notices: KeyMap<StrokeExecutionReceiptId, MergeCompletionNotice>,
    progress_queue: Vec<ReceiptProgress>,
    succeeded_receipts: Vec<StrokeExecutionReceipt>,
    failed_receipts: Vec<StrokeExecutionFailure>,
}

impl View for MergeOrchestrator {
    type V = MergeModel;

    closed spec fn view(&self) -> MergeModel {
        MergeModel {
            next_submission_id: self.next_submission_id,
            receipts: crate::collections::viewed(self.receipts@),
            pending: self.pending_receipts@,
            submissions: crate::collections::viewed(self.submissions@),
            in_flight: self.in_flight_submissions@,
            ackable: crate::collections::viewed(self.ackable_notices@),
            progress: crate::collections::viewed_seq(self.progress_queue@),
            succeeded: self.succeeded_receipts@,
            failed: crate::collections::viewed_seq(self.failed_receipts@),
        }
    }
}

/// The operations of the receipts `ids`, receipt by receipt, each tagged with
/// its receipt.
pub open spec fn batch_ops(
    receipts: Map<StrokeExecutionReceiptId, ReceiptModel>,
    ids: Seq<StrokeExecutionReceiptId>,
) -> Seq<SubmissionGpuOp>
    decreases ids.len(),
{
    if ids.len() == 0 {
        Seq::empty()
    } else {
        batch_ops(receipts, ids.drop_last()) + tagged_ops(ids.last(), receipts[ids.last()].ops)
    }
}

/// The operations of one receipt, tagged with it.
pub open spec fn tagged_ops(
    receipt_id: StrokeExecutionReceiptId,
    ops: Seq<GpuMergeOp>,
) -> Seq<SubmissionGpuOp> {
    ops.map_values(|op: GpuMergeOp| SubmissionGpuOp { receipt_id, gpu_merge_op: op })
}

impl MergeModel {
    /// Nothing has been planned yet.
    pub open spec fn initial() -> MergeModel {
        MergeModel {
            next_submission_id: 0,
            receipts: Map::empty(),
            pending: Seq::empty(),
            submissions: Map::empty(),
            in_flight: Seq::empty(),
            ackable: Map::empty(),
            progress: Seq::empty(),
            succeeded: Seq::empty(),
            failed: Seq::empty(),
        }
    }

    /// What every operation relies on and keeps:
    /// - the queue holds exactly the planned receipts, each once;
    /// - a receipt is filed under its own identifier;
    /// - the identifiers of all submissions, in flight or not, were given out.
    pub open spec fn inv(&self) -> bool {
        &&& self.pending.no_duplicates()
        &&& forall|id: StrokeExecutionReceiptId| #[trigger]
            self.pending.contains(id) <==> self.receipts.dom().contains(id)
                && self.receipts[id].state is Planned
        &&& forall|id: StrokeExecutionReceiptId| #[trigger]
            self.receipts.dom().contains(id) ==> self.receipts[id].receipt.receipt_id == id
        &&& forall|id: RendererSubmissionId| #[trigger]
            self.submissions.dom().contains(id) ==> id.0 < self.next_submission_id
        &&& forall|i: int|
            0 <= i < self.in_flight.len() ==> (#[trigger] self.in_flight[i]).renderer_submission_id.0
                < self.next_submission_id
    }

    /// Why a merge cannot be planned, if it cannot.
    pub open spec fn enqueue_error(
        &self,
        receipt: StrokeExecutionReceipt,
        ops: Seq<GpuMergeOp>,
        meta: MergePlanMeta,
    ) -> Option<MergeEnqueueError> {
        if ops.len() == 0 {
            Some(MergeEnqueueError::EmptyMergeOps { receipt_id: receipt.receipt_id })
        } else if receipt.stroke_session_id != meta.stroke_session_id || receipt.tx_token
            != meta.tx_token {
            Some(
                MergeEnqueueError::ReceiptMetaMismatch {
                    receipt_id: receipt.receipt_id,
                    receipt_stroke_session_id: receipt.stroke_session_id,
                    meta_stroke_session_id: meta.stroke_session_id,
                    receipt_tx_token: receipt.tx_token,
                    meta_tx_token: meta.tx_token,
                },
            )
        } else if self.receipts.dom().contains(receipt.receipt_id) {
            Some(MergeEnqueueError::DuplicateReceipt { receipt_id: receipt.receipt_id })
        } else {
            None
        }
    }

    /// The state after a merge has been planned: its receipt is last in the
    /// queue.
    pub open spec fn enqueued(
        &self,
        receipt: StrokeExecutionReceipt,
        ops: Seq<GpuMergeOp>,
    ) -> MergeModel {
        MergeModel {
            receipts: self.receipts.insert(
                receipt.receipt_id,
                ReceiptModel { receipt, ops, state: MergeReceiptState::Planned },
            ),
            pending: self.pending.push(receipt.receipt_id),
            ..*self
        }
    }

    /// The receipts at the head of the queue that a submission may take.
    pub open spec fn batch(&self, budget: u32) -> Seq<StrokeExecutionReceiptId> {
        if budget < self.pending.len() {
            self.pending.take(budget as int)
        } else {
            self.pending
        }
    }

    /// A submission that can be committed: its identifier has been given out
    /// and is not in use, and its receipts are the head of the queue.
    pub open spec fn committable(&self, report: SubmissionReport) -> bool {
        match report.renderer_submission_id {
            None => true,
            Some(id) => {
                &&& id.0 < self.next_submission_id
                &&& !self.submissions.dom().contains(id)
                &&& forall|i: int|
                    0 <= i < self.in_flight.len() ==> (#[trigger] self.in_flight[i]).renderer_submission_id
                        != id
                &&& report.receipt_ids@.len() <= self.pending.len()
                &&& report.receipt_ids@ == self.pending.take(report.receipt_ids@.len() as int)
            },
        }
    }

    /// The state after a submission has been handed to the device: its
    /// receipts leave the queue and are pending.
    pub open spec fn committed(
        &self,
        id: RendererSubmissionId,
        frame_id: u64,
        receipt_ids: Seq<StrokeExecutionReceiptId>,
    ) -> MergeModel {
        let state = MergeReceiptState::Pending { renderer_submission_id: id, frame_id };
        MergeModel {
            receipts: Map::new(
                |r: StrokeExecutionReceiptId| self.receipts.dom().contains(r),
                |r: StrokeExecutionReceiptId|
                    if receipt_ids.contains(r) {
                        ReceiptModel { state, ..self.receipts[r] }
                    } else {
                        self.receipts[r]
                    },
            ),
            pending: self.pending.skip(receipt_ids.len() as int),
            submissions: self.submissions.insert(id, SubmissionModel { frame_id, receipt_ids }),
            in_flight: self.in_flight.push(
                InFlightSubmission { renderer_submission_id: id, frame_id },
            ),
            progress: self.progress + receipt_ids.map_values(
                |r: StrokeExecutionReceiptId|
                    ProgressModel { receipt: self.receipts[r].receipt, status: StatusModel::Pending },
            ),
            ..*self
        }
    }
}

impl Default for MergeOrchestrator {
    fn default() -> (orchestrator: Self)
        ensures
            orchestrator@ == MergeModel::initial(),
            orchestrator@.inv(),
    {
        let orchestrator = MergeOrchestrator {
            next_submission_id: 0,
            receipts: KeyMap::new(),
            pending_receipts: VecDeque::new(),
            submissions: KeyMap::new(),
            in_flight_submissions: Vec::new(),
            ackable_notices: KeyMap::new(),
            progress_queue: Vec::new(),
            succeeded_receipts: Vec::new(),
            failed_receipts: Vec::new(),
        };
        assert(orchestrator@ =~= MergeModel::initial());
        orchestrator
    }
}

impl MergeOrchestrator {
    /// Plans a merge.
    pub fn enqueue_planned_merge(
        &mut self,
        receipt: StrokeExecutionReceipt,
        gpu_merge_ops: Vec<GpuMergeOp>,
        meta: MergePlanMeta,
    ) -> (result: Result<(), MergeEnqueueError>)
        requires
            old(self)@.inv(),
        ensures
            final(self)@.inv(),
            match old(self)@.enqueue_error(receipt, gpu_merge_ops@, meta) {
                Some(error) => result == Err::<(), _>(error) && final(self)@ == old(self)@,
                None => result is Ok && final(self)@ == old(self)@.enqueued(
                    receipt,
                    gpu_merge_ops@,
                ),
            },
    {
        if gpu_merge_ops.len() == 0 {
            return Err(MergeEnqueueError::EmptyMergeOps { receipt_id: receipt.receipt_id });
        }
        if receipt.stroke_session_id != meta.stroke_session_id || receipt.tx_token
            != meta.tx_token {
            return Err(
                MergeEnqueueError::ReceiptMetaMismatch {
                    receipt_id: receipt.receipt_id,
                    receipt_stroke_session_id: receipt.stroke_session_id,
                    meta_stroke_session_id: meta.stroke_session_id,
                    receipt_tx_token: receipt.tx_token,
                    meta_tx_token: meta.tx_token,
                },
            );
        }
        if self.receipts.contains_key(receipt.receipt_id) {
            return Err(MergeEnqueueError::DuplicateReceipt { receipt_id: receipt.receipt_id });
        }
        let entry = MergeReceiptEntry { receipt, gpu_merge_ops, state: MergeReceiptState::Planned };
        self.pending_receipts.push_back(receipt.receipt_id);
        self.receipts.insert(receipt.receipt_id, entry);
        proof {
            lemma_enqueued_inv(old(self)@, receipt, gpu_merge_ops@);
            assert(self@ =~= old(self)@.enqueued(receipt, gpu_merge_ops@));
        }
        Ok(())
    }
}

/// Planning a merge keeps the invariant.
pub proof fn lemma_enqueued_inv(
    model: MergeModel,
    receipt: StrokeExecutionReceipt,
    ops: Seq<GpuMergeOp>,
)
    requires
        model.inv(),
        !model.receipts.dom().contains(receipt.receipt_id),
    ensures
        model.enqueued(receipt, ops).inv(),
{
    let next = model.enqueued(receipt, ops);
    let id = receipt.receipt_id;
    assert(!model.pending.contains(id));
    assert(next.pending.no_duplicates());
    assert forall|r: StrokeExecutionReceiptId| #[trigger]
        next.pending.contains(r) <==> next.receipts.dom().contains(r)
            && next.receipts[r].state is Planned by {
        if r == id {
            assert(next.pending[model.pending.len() as int] == id);
        } else {
            if model.pending.contains(r) {
                let i = model.pending.index_of(r);
                assert(next.pending[i] == r);
            }
            if next.pending.contains(r) {
                let i = next.pending.index_of(r);
                assert(model.pending[i] == r);
            }
        }
    }
}

/// The operations of one more receipt come after those of the others.
proof fn lemma_batch_ops_push(
    receipts: Map<StrokeExecutionReceiptId, ReceiptModel>,
    ids: Seq<StrokeExecutionReceiptId>,
    count: int,
)
    requires
        0 < count <= ids.len(),
    ensures
        batch_ops(receipts, ids.take(count)) == batch_ops(receipts, ids.take(count - 1))
            + tagged_ops(ids[count - 1], receipts[ids[count - 1]].ops),
{
    assert(ids.take(count).drop_last() =~= ids.take(count - 1));
}

impl MergeOrchestrator {
    /// Puts together the next submission: up to `budget` receipts from the
    /// head of the queue, under a fresh identifier. Apart from that identifier
    /// nothing changes before the submission is committed.
    pub fn prepare_pending_submission(&mut self, frame_id: u64, budget: u32) -> (result: Result<
        PreparedSubmission,
        MergeSubmitError,
    >)
        requires
            old(self)@.inv(),
            budget > 0 && old(self)@.pending.len() > 0 ==> old(self)@.next_submission_id < u64::MAX,
        ensures
            final(self)@.inv(),
            budget == 0 ==> result == Err::<PreparedSubmission, _>(MergeSubmitError::ZeroBudget)
                && final(self)@ == old(self)@,
            budget > 0 ==> match result {
                Ok(prepared) => {
                    &&& prepared.report.frame_id == frame_id
                    &&& prepared.report.receipt_ids@ == old(self)@.batch(budget)
                    &&& prepared.submission_gpu_ops@ == batch_ops(
                        old(self)@.receipts,
                        old(self)@.batch(budget),
                    )
                    &&& final(self)@.committable(prepared.report)
                    &&& if old(self)@.pending.len() == 0 {
                        &&& prepared.report.renderer_submission_id is None
                        &&& final(self)@ == old(self)@
                    } else {
                        &&& prepared.report.renderer_submission_id == Some(
                            RendererSubmissionId(old(self)@.next_submission_id),
                        )
                        &&& final(self)@ == (MergeModel {
                            next_submission_id: (old(self)@.next_submission_id + 1) as u64,
                            ..old(self)@
                        })
                    }
                },
                Err(_) => false,
            },
    {
        if budget == 0 {
            return Err(MergeSubmitError::ZeroBudget);
        }
        let waiting: usize = self.pending_receipts.len();
        let count: usize = if (budget as usize) < waiting {
            budget as usize
        } else {
            waiting
        };
        let mut submitted_receipt_ids: Vec<StrokeExecutionReceiptId> = Vec::new();
        let mut index: usize = 0;
        while index < count
            invariant
                index <= count <= self.pending_receipts@.len(),
                submitted_receipt_ids@ == self.pending_receipts@.take(index as int),
            decreases count - index,
        {
            submitted_receipt_ids.push(self.pending_receipts[index]);
            index += 1;
            assert(submitted_receipt_ids@ =~= self.pending_receipts@.take(index as int));
        }
        proof {
            assert(self.pending_receipts@.take(count as int) =~= self@.batch(budget));
        }
        if submitted_receipt_ids.len() == 0 {
            let report = SubmissionReport {
                frame_id,
                renderer_submission_id: None,
                receipt_ids: Vec::new(),
            };
            let submission_gpu_ops: Vec<SubmissionGpuOp> = Vec::new();
            proof {
                assert(report.receipt_ids@ =~= self@.batch(budget));
                assert(submission_gpu_ops@ =~= batch_ops(self@.receipts, self@.batch(budget)));
            }
            return Ok(PreparedSubmission { report, submission_gpu_ops });
        }
        let renderer_submission_id = RendererSubmissionId(self.next_submission_id);
        let mut submission_gpu_ops: Vec<SubmissionGpuOp> = Vec::new();
        let mut position: usize = 0;
        proof {
            assert(submission_gpu_ops@ =~= batch_ops(
                self@.receipts,
                submitted_receipt_ids@.take(0),
            ));
        }
        while position < submitted_receipt_ids.len()
            invariant
                *self == *old(self),
                self@.inv(),
                position <= submitted_receipt_ids@.len(),
                submitted_receipt_ids@ == self@.batch(budget),
                submission_gpu_ops@ == batch_ops(
                    self@.receipts,
                    submitted_receipt_ids@.take(position as int),
                ),
            decreases submitted_receipt_ids@.len() - position,
        {
            let receipt_id = submitted_receipt_ids[position];
            proof {
                assert(self@.pending[position as int] == receipt_id);
                assert(self@.pending.contains(receipt_id));
            }
            match self.receipts.get(receipt_id) {
                None => {
                    return Err(MergeSubmitError::UnknownReceipt { receipt_id });
                },
                Some(entry) => {
                    match entry.state {
                        MergeReceiptState::Planned => {},
                        _ => {
                            return Err(
                                MergeSubmitError::IllegalState {
                                    receipt_id,
                                    state: entry.state.label(),
                                },
                            );
                        },
                    }
                    assert(entry@ == self@.receipts[receipt_id]);
                    let ghost ops_before = submission_gpu_ops@;
                    let mut op_index: usize = 0;
                    while op_index < entry.gpu_merge_ops.len()
                        invariant
                            op_index <= entry.gpu_merge_ops@.len(),
                            submission_gpu_ops@ == ops_before + tagged_ops(
                                receipt_id,
                                entry.gpu_merge_ops@.take(op_index as int),
                            ),
                        decreases entry.gpu_merge_ops@.len() - op_index,
                    {
                        submission_gpu_ops.push(
                            SubmissionGpuOp {
                                receipt_id,
                                gpu_merge_op: entry.gpu_merge_ops[op_index],
                            },
                        );
                        op_index += 1;
                        assert(submission_gpu_ops@ =~= ops_before + tagged_ops(
                            receipt_id,
                            entry.gpu_merge_ops@.take(op_index as int),
                        ));
                    }
                    proof {
                        assert(entry.gpu_merge_ops@.take(op_index as int) =~= entry.gpu_merge_ops@);
                        lemma_batch_ops_push(
                            self@.receipts,
                            submitted_receipt_ids@,
                            position + 1,
                        );
                    }
                },
            }
            position += 1;
        }
        proof {
            assert(submitted_receipt_ids@.take(position as int) =~= submitted_receipt_ids@);
        }
        self.next_submission_id = self.next_submission_id + 1;
        Ok(
            PreparedSubmission {
                report: SubmissionReport {
                    frame_id,
                    renderer_submission_id: Some(renderer_submission_id),
                    receipt_ids: submitted_receipt_ids,
                },
                submission_gpu_ops,
            },
        )
    }

    /// Records that a prepared submission has been handed to the device. The
    /// report of a submission that holds nothing is handed back as it is.
    pub fn commit_submitted_submission(&mut self, prepared: PreparedSubmission) -> (report:
        SubmissionReport)
        requires
            old(self)@.inv(),
            old(self)@.committable(prepared.report),
        ensures
            final(self)@.inv(),
            report == prepared.report,
            match prepared.report.renderer_submission_id {
                None => final(self)@ == old(self)@,
                Some(id) => final(self)@ == old(self)@.committed(
                    id,
                    prepared.report.frame_id,
                    prepared.report.receipt_ids@,
                ),
            },
    {
        let report = prepared.report;
        let renderer_submission_id = match report.renderer_submission_id {
            None => {
                return report;
            },
            Some(id) => id,
        };
        let frame_id: u64 = report.frame_id;
        let state = MergeReceiptState::Pending { renderer_submission_id, frame_id };
        let ghost ids = report.receipt_ids@;
        let ghost target = old(self)@.committed(renderer_submission_id, frame_id, ids);
        let mut receipt_ids: Vec<StrokeExecutionReceiptId> = Vec::new();
        let mut index: usize = 0;
        while index < report.receipt_ids.len()
            invariant
                index <= report.receipt_ids@.len(),
                ids == report.receipt_ids@,
                old(self)@.inv(),
                old(self)@.committable(report),
                report.renderer_submission_id == Some(renderer_submission_id),
                state == (MergeReceiptState::Pending { renderer_submission_id, frame_id }),
                receipt_ids@ == ids.take(index as int),
                self@.pending == old(self)@.pending.skip(index as int),
                self@.receipts.dom() == old(self)@.receipts.dom(),
                forall|r: StrokeExecutionReceiptId| #[trigger]
                    self@.receipts.dom().contains(r) ==> self@.receipts[r] == (
                    if ids.take(index as int).contains(r) {
                        ReceiptModel { state, ..old(self)@.receipts[r] }
                    } else {
                        old(self)@.receipts[r]
                    }),
                self@.progress == old(self)@.progress + ids.take(index as int).map_values(
                    |r: StrokeExecutionReceiptId|
                        ProgressModel {
                            receipt: old(self)@.receipts[r].receipt,
                            status: StatusModel::Pending,
                        },
                ),
                self@ == (MergeModel {
                    pending: self@.pending,
                    receipts: self@.receipts,
                    progress: self@.progress,
                    ..old(self)@
                }),
            decreases report.receipt_ids@.len() - index,
        {
            let receipt_id = report.receipt_ids[index];
            let ghost before = self@;
            proof {
                assert(old(self)@.pending[index as int] == receipt_id);
                assert(old(self)@.pending.contains(receipt_id));
                assert(before.receipts.dom().contains(receipt_id));
                assert(!ids.take(index as int).contains(receipt_id)) by {
                    if ids.take(index as int).contains(receipt_id) {
                        let j = ids.take(index as int).index_of(receipt_id);
                        assert(old(self)@.pending[j] == receipt_id);
                    }
                }
            }
            let popped = self.pending_receipts.pop_front();
            let removed = self.receipts.remove(receipt_id);
            let entry = removed.unwrap();
            let receipt = entry.receipt;
            let updated = MergeReceiptEntry {
                receipt,
                gpu_merge_ops: entry.gpu_merge_ops,
                state,
            };
            self.receipts.insert(receipt_id, updated);
            self.progress_queue.push(ReceiptProgress { receipt, status: ExecutionStatus::Pending });
            receipt_ids.push(receipt_id);
            index += 1;
            proof {
                let shorter = ids.take(index - 1);
                let longer = ids.take(index as int);
                assert(longer =~= shorter.push(receipt_id));
                assert(receipt_ids@ =~= longer);
                assert(self@.pending =~= old(self)@.pending.skip(index as int));
                assert(self@.receipts =~= before.receipts.remove(receipt_id).insert(
                    receipt_id,
                    updated@,
                ));
                assert(self@.receipts.dom() =~= old(self)@.receipts.dom());
                assert forall|r: StrokeExecutionReceiptId| #[trigger]
                    self@.receipts.dom().contains(r) implies self@.receipts[r] == (
                if longer.contains(r) {
                    ReceiptModel { state, ..old(self)@.receipts[r] }
                } else {
                    old(self)@.receipts[r]
                }) by {
                    assert(before.receipts.dom().contains(r));
                    if r == receipt_id {
                        assert(longer[index - 1] == r);
                    } else {
                        assert(longer.contains(r) == shorter.contains(r)) by {
                            if longer.contains(r) {
                                let j = longer.index_of(r);
                                assert(shorter[j] == r);
                            }
                            if shorter.contains(r) {
                                let j = shorter.index_of(r);
                                assert(longer[j] == r);
                            }
                        }
                    }
                }
                assert(self@.progress =~= old(self)@.progress + longer.map_values(
                    |r: StrokeExecutionReceiptId|
                        ProgressModel {
                            receipt: old(self)@.receipts[r].receipt,
                            status: StatusModel::Pending,
                        },
                ));
            }
        }
        proof {
            assert(ids.take(ids.len() as int) =~= ids);
        }
        self.submissions.insert(renderer_submission_id, SubmissionEntry { frame_id, receipt_ids });
        self.in_flight_submissions.push(InFlightSubmission { renderer_submission_id, frame_id });
        proof {
            assert(self@.receipts =~= target.receipts);
            assert(self@ =~= target);
            lemma_committed_inv(old(self)@, renderer_submission_id, frame_id, ids);
        }
        report
    }
}

/// Committing a submission keeps the invariant.
pub proof fn lemma_committed_inv(
    model: MergeModel,
    id: RendererSubmissionId,
    frame_id: u64,
    ids: Seq<StrokeExecutionReceiptId>,
)
    requires
        model.inv(),
        id.0 < model.next_submission_id,
        ids.len() <= model.pending.len(),
        ids == model.pending.take(ids.len() as int),
    ensures
        model.committed(id, frame_id, ids).inv(),
{
    let next = model.committed(id, frame_id, ids);
    let n = ids.len() as int;
    assert(next.pending.no_duplicates());
    assert forall|r: StrokeExecutionReceiptId| #[trigger]
        next.pending.contains(r) <==> next.receipts.dom().contains(r)
            && next.receipts[r].state is Planned by {
        if next.pending.contains(r) {
            let i = next.pending.index_of(r);
            assert(model.pending[i + n] == r);
            assert(model.pending.contains(r));
            if ids.contains(r) {
                let j = ids.index_of(r);
                assert(model.pending[j] == r);
            }
        }
        if next.receipts.dom().contains(r) && next.receipts[r].state is Planned {
            assert(!ids.contains(r));
            assert(model.pending.contains(r));
            let i = model.pending.index_of(r);
            if i < n {
                assert(ids[i] == r);
            } else {
                assert(next.pending[i - n] == r);
            }
        }
    }
}

/// What the completion callback of a submission in flight has signalled.
#[derive(Debug, Clone, Copy, PartialEq, Eq, Structural)]
pub enum CompletionSignal {
    /// The device has finished the work.
    Done,
    /// Nothing has been heard yet.
    NotYet,
    /// The callback is gone and will never signal.
    Disconnected,
}

/// The submissions whose callback has signalled an end, in order.
pub open spec fn signalled(
    in_flight: Seq<InFlightSubmission>,
    signals: Seq<CompletionSignal>,
) -> Seq<CompletedModel>
    decreases in_flight.len(),
{
    if in_flight.len() == 0 {
        Seq::empty()
    } else {
        let earlier = signalled(in_flight.drop_last(), signals);
        let submission = in_flight.last();
        match signals[in_flight.len() - 1] {
            CompletionSignal::NotYet => earlier,
            CompletionSignal::Done => earlier.push(
                completed_with(submission, CompletionModel::Completed),
            ),
            CompletionSignal::Disconnected => earlier.push(
                completed_with(submission, CompletionModel::CallbackDisconnected),
            ),
        }
    }
}

/// The submissions whose callback has not signalled anything, in order.
pub open spec fn unsignalled(
    in_flight: Seq<InFlightSubmission>,
    signals: Seq<CompletionSignal>,
) -> Seq<InFlightSubmission>
    decreases in_flight.len(),
{
    if in_flight.len() == 0 {
        Seq::empty()
    } else {
        let earlier = unsignalled(in_flight.drop_last(), signals);
        match signals[in_flight.len() - 1] {
            CompletionSignal::NotYet => earlier.push(in_flight.last()),
            _ => earlier,
        }
    }
}

/// A submission in flight that ended in this way.
pub open spec fn completed_with(
    submission: InFlightSubmission,
    completion: CompletionModel,
) -> CompletedModel {
    CompletedModel {
        renderer_submission_id: submission.renderer_submission_id,
        frame_id: submission.frame_id,
        completion,
    }
}

/// Every submission in flight ended in this way.
pub open spec fn all_completed_with(
    in_flight: Seq<InFlightSubmission>,
    completion: CompletionModel,
) -> Seq<CompletedModel> {
    in_flight.map_values(|submission: InFlightSubmission| completed_with(submission, completion))
}

/// Every submission without a signal was in flight before.
proof fn lemma_unsignalled(in_flight: Seq<InFlightSubmission>, signals: Seq<CompletionSignal>)
    ensures
        forall|i: int|
            0 <= i < unsignalled(in_flight, signals).len() ==> in_flight.contains(
                #[trigger] unsignalled(in_flight, signals)[i],
            ),
    decreases in_flight.len(),
{
    if in_flight.len() > 0 {
        let shorter = in_flight.drop_last();
        lemma_unsignalled(shorter, signals);
        let rest = unsignalled(in_flight, signals);
        assert forall|i: int| 0 <= i < rest.len() implies in_flight.contains(#[trigger] rest[i]) by {
            let earlier = unsignalled(shorter, signals);
            if i < earlier.len() {
                assert(rest[i] == earlier[i]);
                assert(shorter.contains(earlier[i]));
                let j = shorter.index_of(earlier[i]);
                assert(in_flight[j] == rest[i]);
            } else {
                assert(in_flight[in_flight.len() - 1] == rest[i]);
            }
        }
    }
}

impl GpuSubmissionCompletion {
    /// A completion that says the same.
    fn duplicate(&self) -> (copy: Self)
        ensures
            copy@ == self@,
    {
        match self {
            GpuSubmissionCompletion::Completed => GpuSubmissionCompletion::Completed,
            GpuSubmissionCompletion::CallbackDisconnected => {
                GpuSubmissionCompletion::CallbackDisconnected
            },
            GpuSubmissionCompletion::DeviceError { message } => {
                GpuSubmissionCompletion::DeviceError { message: message.clone() }
            },
            GpuSubmissionCompletion::Lost { reason, message } => GpuSubmissionCompletion::Lost {
                reason: *reason,
                message: message.clone(),
            },
        }
    }

    /// The result that the receipts of the submission are told.
    fn to_result(&self) -> (result: MergeExecutionResult)
        ensures
            result@ == self@.outcome(),
    {
        match self {
            GpuSubmissionCompletion::Completed => MergeExecutionResult::Succeeded,
            GpuSubmissionCompletion::CallbackDisconnected => MergeExecutionResult::Failed {
                message: "merge submission callback disconnected".to_owned(),
            },
            GpuSubmissionCompletion::DeviceError { message } => MergeExecutionResult::Failed {
                message: message.clone(),
            },
            GpuSubmissionCompletion::Lost { reason, message } => {
                let text = "gpu device lost (".to_owned().concat(reason.label()).concat(
                    "): ",
                ).concat(message.as_str());
                MergeExecutionResult::Failed { message: text }
            },
        }
    }
}

impl MergeCompletionNotice {
    /// A notice that says the same.
    fn duplicate(&self) -> (copy: Self)
        ensures
            copy@ == self@,
    {
        let result = match &self.result {
            MergeExecutionResult::Succeeded => MergeExecutionResult::Succeeded,
            MergeExecutionResult::Failed { message } => MergeExecutionResult::Failed {
                message: message.clone(),
            },
        };
        MergeCompletionNotice { receipt_id: self.receipt_id, audit_meta: self.audit_meta, result }
    }

    /// Tells whether two notices say the same.
    fn agrees_with(&self, other: &Self) -> (same: bool)
        ensures
            same == (self@ == other@),
    {
        if self.receipt_id != other.receipt_id || self.audit_meta != other.audit_meta {
            return false;
        }
        match (&self.result, &other.result) {
            (MergeExecutionResult::Succeeded, MergeExecutionResult::Succeeded) => true,
            (
                MergeExecutionResult::Failed { message: left },
                MergeExecutionResult::Failed { message: right },
            ) => *left == *right,
            _ => false,
        }
    }
}

/// What collecting notices has come to.
#[verifier::ext_equal]
pub struct Collected {
    pub ackable: Map<StrokeExecutionReceiptId, NoticeModel>,
    pub notices: Seq<NoticeModel>,
    pub error: Option<MergePollError>,
}

/// The notice for one receipt of a completed submission.
pub open spec fn notice_for(
    completed: CompletedModel,
    receipt_id: StrokeExecutionReceiptId,
) -> NoticeModel {
    NoticeModel {
        receipt_id,
        audit_meta: MergeAuditMeta {
            frame_id: completed.frame_id,
            renderer_submission_id: completed.renderer_submission_id,
            op_trace_id: None,
        },
        outcome: completed.completion.outcome(),
    }
}

impl Collected {
    /// Registers one notice. A receipt that already has a notice is an error,
    /// after which nothing more happens.
    pub open spec fn register(self, notice: NoticeModel) -> Collected {
        if self.error is Some {
            self
        } else if self.ackable.dom().contains(notice.receipt_id) {
            Collected {
                error: Some(
                    MergePollError::DuplicateAckableNotice { receipt_id: notice.receipt_id },
                ),
                ..self
            }
        } else {
            Collected {
                ackable: self.ackable.insert(notice.receipt_id, notice),
                notices: self.notices.push(notice),
                ..self
            }
        }
    }

    /// Registers a notice for each receipt of a completed submission.
    pub open spec fn register_all(
        self,
        completed: CompletedModel,
        receipt_ids: Seq<StrokeExecutionReceiptId>,
    ) -> Collected
        decreases receipt_ids.len(),
    {
        if receipt_ids.len() == 0 {
            self
        } else {
            self.register_all(completed, receipt_ids.drop_last()).register(
                notice_for(completed, receipt_ids.last()),
            )
        }
    }

    /// Takes in one completed submission, which has to be known.
    pub open spec fn take_in(
        self,
        submissions: Map<RendererSubmissionId, SubmissionModel>,
        completed: CompletedModel,
    ) -> Collected {
        if self.error is Some {
            self
        } else if !submissions.dom().contains(completed.renderer_submission_id) {
            Collected {
                error: Some(
                    MergePollError::UnknownSubmission {
                        renderer_submission_id: completed.renderer_submission_id,
                    },
                ),
                ..self
            }
        } else {
            self.register_all(
                completed,
                submissions[completed.renderer_submission_id].receipt_ids,
            )
        }
    }
}

impl MergeModel {
    /// Collecting the notices of the submissions `completed`, in order.
    pub open spec fn collect(&self, completed: Seq<CompletedModel>) -> Collected
        decreases completed.len(),
    {
        if completed.len() == 0 {
            Collected { ackable: self.ackable, notices: Seq::empty(), error: None }
        } else {
            self.collect(completed.drop_last()).take_in(self.submissions, completed.last())
        }
    }
}

/// Once there is an error, nothing more is registered.
proof fn lemma_register_all_stops(
    state: Collected,
    completed: CompletedModel,
    receipt_ids: Seq<StrokeExecutionReceiptId>,
    count: int,
)
    requires
        0 <= count <= receipt_ids.len(),
        state.register_all(completed, receipt_ids.take(count)).error is Some,
    ensures
        state.register_all(completed, receipt_ids) == state.register_all(
            completed,
            receipt_ids.take(count),
        ),
    decreases receipt_ids.len() - count,
{
    if count < receipt_ids.len() {
        assert(receipt_ids.take(count + 1).drop_last() =~= receipt_ids.take(count));
        lemma_register_all_stops(state, completed, receipt_ids, count + 1);
    } else {
        assert(receipt_ids.take(count) =~= receipt_ids);
    }
}

/// Once there is an error, no further submission is looked at.
proof fn lemma_collect_stops(model: MergeModel, completed: Seq<CompletedModel>, count: int)
    requires
        0 <= count <= completed.len(),
        model.collect(completed.take(count)).error is Some,
    ensures
        model.collect(completed) == model.collect(completed.take(count)),
    decreases completed.len() - count,
{
    if count < completed.len() {
        assert(completed.take(count + 1).drop_last() =~= completed.take(count));
        lemma_collect_stops(model, completed, count + 1);
    } else {
        assert(completed.take(count) =~= completed);
    }
}

impl MergeOrchestrator {
    /// Hands out the progress events, oldest first.
    pub fn drain_receipt_progress_events(&mut self, _frame_id: u64) -> (events: Vec<
        ReceiptProgress,
    >)
        requires
            old(self)@.inv(),
        ensures
            final(self)@.inv(),
            crate::collections::viewed_seq(events@) == old(self)@.progress,
            final(self)@ == (MergeModel { progress: Seq::empty(), ..old(self)@ }),
    {
        let mut events: Vec<ReceiptProgress> = Vec::new();
        std::mem::swap(&mut events, &mut self.progress_queue);
        proof {
            assert(self@.progress =~= Seq::empty());
        }
        events
    }

    /// The submissions in flight, oldest first.
    pub fn in_flight_submissions(&self) -> (submissions: &Vec<InFlightSubmission>)
        ensures
            submissions@ == self@.in_flight,
    {
        &self.in_flight_submissions
    }

    /// Takes the submissions that are over out of flight. There is one signal
    /// for each submission in flight, in the same order.
    pub fn drain_completed_submissions(&mut self, signals: &Vec<CompletionSignal>) -> (completed:
        Vec<CompletedSubmission>)
        requires
            old(self)@.inv(),
            signals@.len() == old(self)@.in_flight.len(),
        ensures
            final(self)@.inv(),
            crate::collections::viewed_seq(completed@) == signalled(old(self)@.in_flight, signals@),
            final(self)@ == (MergeModel {
                in_flight: unsignalled(old(self)@.in_flight, signals@),
                ..old(self)@
            }),
    {
        let mut completed: Vec<CompletedSubmission> = Vec::new();
        let mut still_pending: Vec<InFlightSubmission> = Vec::new();
        let ghost in_flight = self.in_flight_submissions@;
        proof {
            assert(crate::collections::viewed_seq(completed@) =~= signalled(in_flight.take(0), signals@));
        }
        let mut index: usize = 0;
        while index < self.in_flight_submissions.len()
            invariant
                *self == *old(self),
                in_flight == self.in_flight_submissions@,
                index <= in_flight.len(),
                in_flight.len() == signals@.len(),
                crate::collections::viewed_seq(completed@) == signalled(in_flight.take(index as int), signals@),
                still_pending@ == unsignalled(in_flight.take(index as int), signals@),
            decreases in_flight.len() - index,
        {
            let submission = self.in_flight_submissions[index];
            proof {
                assert(in_flight.take(index + 1).drop_last() =~= in_flight.take(index as int));
            }
            match signals[index] {
                CompletionSignal::Done => {
                    completed.push(
                        CompletedSubmission {
                            renderer_submission_id: submission.renderer_submission_id,
                            frame_id: submission.frame_id,
                            completion: GpuSubmissionCompletion::Completed,
                        },
                    );
                },
                CompletionSignal::NotYet => {
                    still_pending.push(submission);
                },
                CompletionSignal::Disconnected => {
                    completed.push(
                        CompletedSubmission {
                            renderer_submission_id: submission.renderer_submission_id,
                            frame_id: submission.frame_id,
                            completion: GpuSubmissionCompletion::CallbackDisconnected,
                        },
                    );
                },
            }
            index += 1;
        }
        proof {
            assert(in_flight.take(index as int) =~= in_flight);
            lemma_unsignalled(in_flight, signals@);
        }
        self.in_flight_submissions = still_pending;
        completed
    }

    /// Takes every submission out of flight, as ended with `completion`.
    pub fn fail_all_in_flight_submissions(&mut self, completion: GpuSubmissionCompletion) -> (
        completed: Vec<CompletedSubmission>)
        requires
            old(self)@.inv(),
        ensures
            final(self)@.inv(),
            crate::collections::viewed_seq(completed@) == all_completed_with(old(self)@.in_flight, completion@),
            final(self)@ == (MergeModel { in_flight: Seq::empty(), ..old(self)@ }),
    {
        let mut completed: Vec<CompletedSubmission> = Vec::new();
        let mut index: usize = 0;
        while index < self.in_flight_submissions.len()
            invariant
                *self == *old(self),
                index <= self.in_flight_submissions@.len(),
                crate::collections::viewed_seq(completed@) == all_completed_with(
                    self.in_flight_submissions@.take(index as int),
                    completion@,
                ),
            decreases self.in_flight_submissions@.len() - index,
        {
            let submission = self.in_flight_submissions[index];
            completed.push(
                CompletedSubmission {
                    renderer_submission_id: submission.renderer_submission_id,
                    frame_id: submission.frame_id,
                    completion: completion.duplicate(),
                },
            );
            index += 1;
            proof {
                assert(crate::collections::viewed_seq(completed@) =~= all_completed_with(
                    self.in_flight_submissions@.take(index as int),
                    completion@,
                ));
            }
        }
        proof {
            assert(self.in_flight_submissions@.take(index as int)
                =~= self.in_flight_submissions@);
        }
        self.in_flight_submissions = Vec::new();
        completed
    }

    /// Tells whether any submission is in flight.
    pub fn has_in_flight_submissions(&self) -> (any: bool)
        ensures
            any == (self@.in_flight.len() > 0),
    {
        self.in_flight_submissions.len() > 0
    }

    /// The receipts of a submission.
    pub fn submission_receipt_ids(&self, renderer_submission_id: RendererSubmissionId) -> (result:
        Result<Vec<StrokeExecutionReceiptId>, MergePollError>)
        ensures
            match result {
                Ok(receipt_ids) => self@.submissions.dom().contains(renderer_submission_id)
                    && receipt_ids@ == self@.submissions[renderer_submission_id].receipt_ids,
                Err(error) => !self@.submissions.dom().contains(renderer_submission_id) && error
                    == (MergePollError::UnknownSubmission { renderer_submission_id }),
            },
    {
        match self.submissions.get(renderer_submission_id) {
            None => Err(MergePollError::UnknownSubmission { renderer_submission_id }),
            Some(submission) => {
                let mut receipt_ids: Vec<StrokeExecutionReceiptId> = Vec::new();
                let mut index: usize = 0;
                while index < submission.receipt_ids.len()
                    invariant
                        index <= submission.receipt_ids@.len(),
                        receipt_ids@ == submission.receipt_ids@.take(index as int),
                    decreases submission.receipt_ids@.len() - index,
                {
                    receipt_ids.push(submission.receipt_ids[index]);
                    index += 1;
                    assert(receipt_ids@ =~= submission.receipt_ids@.take(index as int));
                }
                assert(receipt_ids@ =~= submission.receipt_ids@);
                Ok(receipt_ids)
            },
        }
    }

    /// Makes a notice for each receipt of each completed submission, and
    /// remembers it as one that can be acknowledged.
    pub fn collect_completion_notices(&mut self, completed_submissions: Vec<CompletedSubmission>)
        -> (result: Result<Vec<MergeCompletionNotice>, MergePollError>)
        requires
            old(self)@.inv(),
        ensures
            final(self)@.inv(),
            final(self)@ == (MergeModel {
                ackable: old(self)@.collect(crate::collections::viewed_seq(completed_submissions@)).ackable,
                ..old(self)@
            }),
            match result {
                Ok(notices) => old(self)@.collect(
                    crate::collections::viewed_seq(completed_submissions@),
                ).error is None
                    && crate::collections::viewed_seq(notices@) == old(self)@.collect(
                    crate::collections::viewed_seq(completed_submissions@),
                ).notices,
                Err(error) => old(self)@.collect(
                    crate::collections::viewed_seq(completed_submissions@),
                ).error == Some(
                    error,
                ),
            },
    {
        let ghost start = self@;
        let ghost all = crate::collections::viewed_seq(completed_submissions@);
        let mut notices: Vec<MergeCompletionNotice> = Vec::new();
        let mut index: usize = 0;
        proof {
            assert(crate::collections::viewed_seq(notices@) =~= start.collect(all.take(0)).notices);
        }
        while index < completed_submissions.len()
            invariant
                index <= completed_submissions@.len(),
                all == crate::collections::viewed_seq(completed_submissions@),
                start == old(self)@,
                start.inv(),
                self@ == (MergeModel { ackable: self@.ackable, ..start }),
                start.collect(all.take(index as int)) == (Collected {
                    ackable: self@.ackable,
                    notices: crate::collections::viewed_seq(notices@),
                    error: None,
                }),
            decreases completed_submissions@.len() - index,
        {
            let completed = &completed_submissions[index];
            let ghost state = start.collect(all.take(index as int));
            proof {
                assert(all.take(index + 1).drop_last() =~= all.take(index as int));
                assert(all.take(index + 1).last() == completed@);
                assert(start.collect(all.take(index + 1)) == state.take_in(
                    start.submissions,
                    completed@,
                ));
            }
            let receipt_ids = match self.submission_receipt_ids(completed.renderer_submission_id) {
                Ok(receipt_ids) => receipt_ids,
                Err(error) => {
                    proof {
                        lemma_collect_stops(start, all, index + 1);
                    }
                    return Err(error);
                },
            };
            let ghost ids = receipt_ids@;
            let mut position: usize = 0;
            proof {
                assert(state.register_all(completed@, ids.take(0)) == state);
            }
            while position < receipt_ids.len()
                invariant
                    position <= receipt_ids@.len(),
                    index < completed_submissions@.len(),
                    ids == receipt_ids@,
                    all == crate::collections::viewed_seq(completed_submissions@),
                    start == old(self)@,
                    start.inv(),
                    self@ == (MergeModel { ackable: self@.ackable, ..start }),
                    state.error is None,
                    start.submissions.dom().contains(completed@.renderer_submission_id),
                    ids == start.submissions[completed@.renderer_submission_id].receipt_ids,
                    start.collect(all.take(index + 1)) == state.take_in(
                        start.submissions,
                        completed@,
                    ),
                    state.register_all(completed@, ids.take(position as int)) == (Collected {
                        ackable: self@.ackable,
                        notices: crate::collections::viewed_seq(notices@),
                        error: None,
                    }),
                decreases receipt_ids@.len() - position,
            {
                let receipt_id = receipt_ids[position];
                let ghost before = state.register_all(completed@, ids.take(position as int));
                let notice = MergeCompletionNotice {
                    receipt_id,
                    audit_meta: MergeAuditMeta {
                        frame_id: completed.frame_id,
                        renderer_submission_id: completed.renderer_submission_id,
                        op_trace_id: None,
                    },
                    result: completed.completion.to_result(),
                };
                proof {
                    assert(notice@ == notice_for(completed@, receipt_id));
                    assert(ids.take(position + 1).drop_last() =~= ids.take(position as int));
                    assert(state.register_all(completed@, ids.take(position + 1))
                        == before.register(notice@));
                }
                if self.ackable_notices.contains_key(receipt_id) {
                    proof {
                        lemma_register_all_stops(state, completed@, ids, position + 1);
                        lemma_collect_stops(start, all, index + 1);
                    }
                    return Err(MergePollError::DuplicateAckableNotice { receipt_id });
                }
                self.ackable_notices.insert(receipt_id, notice.duplicate());
                notices.push(notice);
                position += 1;
            }
            proof {
                assert(ids.take(position as int) =~= ids);
            }
            index += 1;
        }
        proof {
            assert(all.take(index as int) =~= all);
        }
        Ok(notices)
    }
}

impl MergeModel {
    /// Why a notice cannot be acknowledged, if it cannot.
    pub open spec fn ack_error(&self, notice: NoticeModel) -> Option<MergeAckError> {
        let receipt_id = notice.receipt_id;
        let submission_id = notice.audit_meta.renderer_submission_id;
        if !self.ackable.dom().contains(receipt_id) {
            Some(MergeAckError::NoticeNotAckable { receipt_id })
        } else if self.ackable[receipt_id] != notice {
            Some(MergeAckError::NoticeMismatch { receipt_id })
        } else if !self.submissions.dom().contains(submission_id) {
            Some(
                MergeAckError::UnknownSubmission {
                    receipt_id,
                    renderer_submission_id: submission_id,
                },
            )
        } else if !self.submissions[submission_id].receipt_ids.contains(receipt_id) {
            Some(
                MergeAckError::ReceiptNotInSubmission {
                    receipt_id,
                    renderer_submission_id: submission_id,
                },
            )
        } else if !self.receipts.dom().contains(receipt_id) {
            Some(MergeAckError::UnknownReceipt { receipt_id })
        } else {
            match self.receipts[receipt_id].state.submission() {
                None => Some(
                    MergeAckError::IllegalState {
                        receipt_id,
                        state: self.receipts[receipt_id].state.name(),
                    },
                ),
                Some(expected) => if expected != submission_id {
                    Some(
                        MergeAckError::ReceiptSubmissionMismatch {
                            receipt_id,
                            expected_submission_id: expected,
                            received_submission_id: submission_id,
                        },
                    )
                } else {
                    None
                },
            }
        }
    }

    /// What a failed merge is reported with.
    pub open spec fn failure_context(
        &self,
        notice: NoticeModel,
        message: Seq<char>,
    ) -> ErrorContextModel {
        let receipt = self.receipts[notice.receipt_id].receipt;
        ErrorContextModel {
            receipt_id: notice.receipt_id,
            stroke_session_id: receipt.stroke_session_id,
            tx_token: receipt.tx_token,
            frame_id: notice.audit_meta.frame_id,
            renderer_submission_id: notice.audit_meta.renderer_submission_id,
            op_stage: MergeOpStage::Merge,
            message,
        }
    }

    /// The state after a notice has been acknowledged: its receipt has
    /// succeeded or failed, is reported as such, and the notice is used up.
    pub open spec fn acked(&self, notice: NoticeModel) -> MergeModel {
        let entry = self.receipts[notice.receipt_id];
        let ackable = self.ackable.remove(notice.receipt_id);
        match notice.outcome {
            None => MergeModel {
                receipts: self.receipts.insert(
                    notice.receipt_id,
                    ReceiptModel { state: MergeReceiptState::Succeeded, ..entry },
                ),
                ackable,
                succeeded: self.succeeded.push(entry.receipt),
                progress: self.progress.push(
                    ProgressModel { receipt: entry.receipt, status: StatusModel::Succeeded },
                ),
                ..*self
            },
            Some(message) => MergeModel {
                receipts: self.receipts.insert(
                    notice.receipt_id,
                    ReceiptModel { state: MergeReceiptState::Failed, ..entry },
                ),
                ackable,
                failed: self.failed.push(
                    FailureModel {
                        receipt: entry.receipt,
                        error_ctx: self.failure_context(notice, message),
                    },
                ),
                progress: self.progress.push(
                    ProgressModel {
                        receipt: entry.receipt,
                        status: StatusModel::Failed(self.failure_context(notice, message)),
                    },
                ),
                ..*self
            },
        }
    }

    /// The submission `id` carries the receipt.
    pub open spec fn carries(
        &self,
        id: RendererSubmissionId,
        receipt_id: StrokeExecutionReceiptId,
    ) -> bool {
        self.submissions.dom().contains(id) && self.submissions[id].receipt_ids.contains(receipt_id)
    }

    /// `id` is the oldest submission that carries the receipt.
    pub open spec fn oldest_carrier(
        &self,
        id: RendererSubmissionId,
        receipt_id: StrokeExecutionReceiptId,
    ) -> bool {
        &&& self.carries(id, receipt_id)
        &&& forall|other: RendererSubmissionId| #[trigger]
            self.carries(other, receipt_id) ==> id.0 <= other.0
    }

    /// The oldest submission that carries the receipt, if any does.
    pub open spec fn carrier(&self, receipt_id: StrokeExecutionReceiptId) -> Option<
        RendererSubmissionId,
    > {
        if exists|id: RendererSubmissionId| #[trigger] self.carries(id, receipt_id) {
            Some(choose|id: RendererSubmissionId| #[trigger] self.oldest_carrier(id, receipt_id))
        } else {
            None
        }
    }

    /// The submission is in flight.
    pub open spec fn flies(&self, id: RendererSubmissionId) -> bool {
        exists|i: int|
            0 <= i < self.in_flight.len() && (#[trigger] self.in_flight[i]).renderer_submission_id
                == id
    }

    /// Why a receipt cannot be brought to its end, if it cannot: its
    /// submission must be over, and it ends as finalized after a success and
    /// as aborted after a failure.
    pub open spec fn finalize_error(
        &self,
        receipt_id: StrokeExecutionReceiptId,
        terminal_state: ReceiptTerminalState,
    ) -> Option<MergeFinalizeError> {
        if self.carrier(receipt_id) is Some && self.flies(self.carrier(receipt_id)->0) {
            Some(
                MergeFinalizeError::SubmissionStillInFlight {
                    receipt_id,
                    renderer_submission_id: self.carrier(receipt_id)->0,
                },
            )
        } else if !self.receipts.dom().contains(receipt_id) {
            Some(MergeFinalizeError::UnknownReceipt { receipt_id })
        } else {
            let state = self.receipts[receipt_id].state;
            let allowed = match terminal_state {
                ReceiptTerminalState::Finalized => state is Succeeded,
                ReceiptTerminalState::Aborted => state is Failed,
            };
            if allowed {
                None
            } else {
                Some(
                    MergeFinalizeError::IllegalTransition {
                        receipt_id,
                        state: state.name(),
                        terminal_state,
                    },
                )
            }
        }
    }

    /// The state without the receipt's submission, if no receipt that it
    /// carries is tracked any more.
    pub open spec fn pruned(&self, receipt_id: StrokeExecutionReceiptId) -> MergeModel {
        match self.carrier(receipt_id) {
            Some(id) => if forall|r: StrokeExecutionReceiptId| #[trigger]
                self.submissions[id].receipt_ids.contains(r) ==> !self.receipts.dom().contains(r) {
                MergeModel { submissions: self.submissions.remove(id), ..*self }
            } else {
                *self
            },
            None => *self,
        }
    }

    /// The state without a receipt.
    pub open spec fn without_receipt(&self, receipt_id: StrokeExecutionReceiptId) -> MergeModel {
        MergeModel { receipts: self.receipts.remove(receipt_id), ..*self }
    }

    /// The state after a receipt has been brought to its end.
    pub open spec fn finalized(&self, receipt_id: StrokeExecutionReceiptId) -> MergeModel {
        self.without_receipt(receipt_id).pruned(receipt_id)
    }
}

/// There is at most one oldest submission that carries a receipt.
proof fn lemma_carrier(
    model: MergeModel,
    id: RendererSubmissionId,
    receipt_id: StrokeExecutionReceiptId,
)
    requires
        model.oldest_carrier(id, receipt_id),
    ensures
        model.carrier(receipt_id) == Some(id),
{
    assert(model.carries(id, receipt_id));
    let chosen = choose|c: RendererSubmissionId| #[trigger] model.oldest_carrier(c, receipt_id);
    assert(model.oldest_carrier(chosen, receipt_id));
    assert(model.carries(chosen, receipt_id));
    assert(chosen.0 == id.0);
}

/// Tells whether `ids` contains `receipt_id`.
fn contains_receipt(
    ids: &Vec<StrokeExecutionReceiptId>,
    receipt_id: StrokeExecutionReceiptId,
) -> (found: bool)
    ensures
        found == ids@.contains(receipt_id),
{
    let mut index: usize = 0;
    while index < ids.len()
        invariant
            index <= ids@.len(),
            forall|i: int| 0 <= i < index ==> ids@[i] != receipt_id,
        decreases ids@.len() - index,
    {
        if ids[index] == receipt_id {
            assert(ids@[index as int] == receipt_id);
            return true;
        }
        index += 1;
    }
    false
}

impl MergeOrchestrator {
    /// Acknowledges a notice that was handed out before.
    pub fn ack_merge_result(&mut self, notice: MergeCompletionNotice) -> (result: Result<
        (),
        MergeAckError,
    >)
        requires
            old(self)@.inv(),
        ensures
            final(self)@.inv(),
            match old(self)@.ack_error(notice@) {
                Some(error) => result == Err::<(), _>(error) && final(self)@ == old(self)@,
                None => result is Ok && final(self)@ == old(self)@.acked(notice@),
            },
    {
        let receipt_id = notice.receipt_id;
        let submission_id = notice.audit_meta.renderer_submission_id;
        match self.ackable_notices.get(receipt_id) {
            None => {
                return Err(MergeAckError::NoticeNotAckable { receipt_id });
            },
            Some(registered) => {
                if !registered.agrees_with(&notice) {
                    return Err(MergeAckError::NoticeMismatch { receipt_id });
                }
            },
        }
        match self.submissions.get(submission_id) {
            None => {
                return Err(
                    MergeAckError::UnknownSubmission {
                        receipt_id,
                        renderer_submission_id: submission_id,
                    },
                );
            },
            Some(submission) => {
                if !contains_receipt(&submission.receipt_ids, receipt_id) {
                    return Err(
                        MergeAckError::ReceiptNotInSubmission {
                            receipt_id,
                            renderer_submission_id: submission_id,
                        },
                    );
                }
            },
        }
        match self.receipts.get(receipt_id) {
            None => {
                return Err(MergeAckError::UnknownReceipt { receipt_id });
            },
            Some(entry) => {
                assert(entry@ == self@.receipts[receipt_id]);
                let expected = match entry.state {
                    MergeReceiptState::Pending { renderer_submission_id, .. } => {
                        renderer_submission_id
                    },
                    MergeReceiptState::Submitted { renderer_submission_id, .. } => {
                        renderer_submission_id
                    },
                    _ => {
                        return Err(
                            MergeAckError::IllegalState { receipt_id, state: entry.state.label() },
                        );
                    },
                };
                if expected != submission_id {
                    return Err(
                        MergeAckError::ReceiptSubmissionMismatch {
                            receipt_id,
                            expected_submission_id: expected,
                            received_submission_id: submission_id,
                        },
                    );
                }
            },
        }
        let ghost start = self@;
        let ghost told = notice@;
        let removed = self.receipts.remove(receipt_id);
        let entry = removed.unwrap();
        let receipt = entry.receipt;
        let gpu_merge_ops = entry.gpu_merge_ops;
        match notice.result {
            MergeExecutionResult::Succeeded => {
                let updated = MergeReceiptEntry {
                    receipt,
                    gpu_merge_ops,
                    state: MergeReceiptState::Succeeded,
                };
                self.receipts.insert(receipt_id, updated);
                self.succeeded_receipts.push(receipt);
                self.progress_queue.push(
                    ReceiptProgress { receipt, status: ExecutionStatus::Succeeded },
                );
            },
            MergeExecutionResult::Failed { message } => {
                let reported = MergeErrorContext {
                    receipt_id,
                    stroke_session_id: receipt.stroke_session_id,
                    tx_token: receipt.tx_token,
                    frame_id: notice.audit_meta.frame_id,
                    renderer_submission_id: submission_id,
                    op_stage: MergeOpStage::Merge,
                    message: message.clone(),
                };
                let error_ctx = MergeErrorContext {
                    receipt_id,
                    stroke_session_id: receipt.stroke_session_id,
                    tx_token: receipt.tx_token,
                    frame_id: notice.audit_meta.frame_id,
                    renderer_submission_id: submission_id,
                    op_stage: MergeOpStage::Merge,
                    message,
                };
                let updated = MergeReceiptEntry {
                    receipt,
                    gpu_merge_ops,
                    state: MergeReceiptState::Failed,
                };
                self.receipts.insert(receipt_id, updated);
                self.failed_receipts.push(StrokeExecutionFailure { receipt, error_ctx: reported });
                self.progress_queue.push(
                    ReceiptProgress { receipt, status: ExecutionStatus::Failed(error_ctx) },
                );
            },
        }
        self.ackable_notices.remove(receipt_id);
        proof {
            let target = start.acked(told);
            assert(self@.receipts =~= target.receipts);
            assert(self@ =~= target);
            lemma_acked_inv(start, told);
        }
        Ok(())
    }

    /// Brings a receipt to its end. It is forgotten, and so is its submission
    /// once every receipt of it is.
    pub fn ack_receipt_terminal_state(
        &mut self,
        receipt_id: StrokeExecutionReceiptId,
        terminal_state: ReceiptTerminalState,
    ) -> (result: Result<(), MergeFinalizeError>)
        requires
            old(self)@.inv(),
        ensures
            final(self)@.inv(),
            match old(self)@.finalize_error(receipt_id, terminal_state) {
                Some(error) => result == Err::<(), _>(error) && final(self)@ == old(self)@,
                None => result is Ok && final(self)@ == old(self)@.finalized(receipt_id),
            },
    {
        match self.receipt_submission_id(receipt_id) {
            Some(renderer_submission_id) => {
                if self.is_submission_in_flight(renderer_submission_id) {
                    return Err(
                        MergeFinalizeError::SubmissionStillInFlight {
                            receipt_id,
                            renderer_submission_id,
                        },
                    );
                }
            },
            None => {},
        }
        let state = match self.receipts.get(receipt_id) {
            None => {
                return Err(MergeFinalizeError::UnknownReceipt { receipt_id });
            },
            Some(entry) => {
                assert(entry@ == self@.receipts[receipt_id]);
                entry.state
            },
        };
        let allowed = match terminal_state {
            ReceiptTerminalState::Finalized => match state {
                MergeReceiptState::Succeeded => true,
                _ => false,
            },
            ReceiptTerminalState::Aborted => match state {
                MergeReceiptState::Failed => true,
                _ => false,
            },
        };
        if !allowed {
            return Err(
                MergeFinalizeError::IllegalTransition {
                    receipt_id,
                    state: state.label(),
                    terminal_state,
                },
            );
        }
        let ghost start = self@;
        self.receipts.remove(receipt_id);
        proof {
            lemma_forgotten_inv(start, receipt_id);
            assert(self@ =~= start.without_receipt(receipt_id));
        }
        self.prune_submission_if_terminal(receipt_id);
        Ok(())
    }

    /// Forgets the receipt's submission if none of its receipts is tracked.
    fn prune_submission_if_terminal(&mut self, receipt_id: StrokeExecutionReceiptId)
        requires
            old(self)@.inv(),
        ensures
            final(self)@.inv(),
            final(self)@ == old(self)@.pruned(receipt_id),
    {
        let renderer_submission_id = match self.receipt_submission_id(receipt_id) {
            None => {
                return ;
            },
            Some(id) => id,
        };
        let mut should_remove: bool = false;
        match self.submissions.get(renderer_submission_id) {
            None => {},
            Some(submission) => {
                assert(submission@ == self@.submissions[renderer_submission_id]);
                should_remove = true;
                let mut index: usize = 0;
                while index < submission.receipt_ids.len()
                    invariant
                        index <= submission.receipt_ids@.len(),
                        should_remove <==> forall|i: int|
                            0 <= i < index ==> !self@.receipts.dom().contains(
                                #[trigger] submission.receipt_ids@[i],
                            ),
                    decreases submission.receipt_ids@.len() - index,
                {
                    if self.receipts.contains_key(submission.receipt_ids[index]) {
                        should_remove = false;
                    }
                    index += 1;
                }
                proof {
                    let ids = submission.receipt_ids@;
                    if should_remove {
                        assert forall|r: StrokeExecutionReceiptId| #[trigger]
                            ids.contains(r) implies !self@.receipts.dom().contains(r) by {
                            let i = ids.index_of(r);
                            assert(!self@.receipts.dom().contains(ids[i]));
                        }
                    } else {
                        let i = choose|i: int|
                            0 <= i < ids.len() && self@.receipts.dom().contains(
                                #[trigger] ids[i],
                            );
                        assert(ids.contains(ids[i]));
                    }
                }
            },
        }
        if should_remove {
            let ghost start = self@;
            self.submissions.remove(renderer_submission_id);
            proof {
                assert(self@ =~= start.pruned(receipt_id));
            }
        }
    }

    /// Tells whether a submission is in flight.
    pub fn is_submission_in_flight(&self, renderer_submission_id: RendererSubmissionId) -> (found:
        bool)
        ensures
            found == self@.flies(renderer_submission_id),
    {
        let mut index: usize = 0;
        while index < self.in_flight_submissions.len()
            invariant
                index <= self.in_flight_submissions@.len(),
                forall|i: int|
                    0 <= i < index ==> (
                    #[trigger] self.in_flight_submissions@[i]).renderer_submission_id
                        != renderer_submission_id,
            decreases self.in_flight_submissions@.len() - index,
        {
            if self.in_flight_submissions[index].renderer_submission_id == renderer_submission_id {
                assert(self@.in_flight[index as int].renderer_submission_id
                    == renderer_submission_id);
                return true;
            }
            index += 1;
        }
        false
    }

    /// The oldest submission that carries a receipt.
    pub fn receipt_submission_id(&self, receipt_id: StrokeExecutionReceiptId) -> (found: Option<
        RendererSubmissionId,
    >)
        ensures
            found == self@.carrier(receipt_id),
            found is Some ==> self@.carries(found->0, receipt_id),
    {
        let ids = self.submissions.keys();
        let mut oldest: Option<RendererSubmissionId> = None;
        let mut index: usize = 0;
        while index < ids.len()
            invariant
                index <= ids@.len(),
                ids@.to_set() == self.submissions@.dom(),
                match oldest {
                    None => forall|i: int|
                        0 <= i < index ==> !self@.carries(#[trigger] ids@[i], receipt_id),
                    Some(id) => self@.carries(id, receipt_id) && forall|i: int|
                        0 <= i < index && self@.carries(#[trigger] ids@[i], receipt_id) ==> id.0
                            <= ids@[i].0,
                },
            decreases ids@.len() - index,
        {
            let id = ids[index];
            match self.submissions.get(id) {
                None => {},
                Some(submission) => {
                    assert(submission@ == self@.submissions[id]);
                    if contains_receipt(&submission.receipt_ids, receipt_id) {
                        oldest = match oldest {
                            None => Some(id),
                            Some(other) => if id.0 < other.0 {
                                Some(id)
                            } else {
                                Some(other)
                            },
                        };
                    }
                },
            }
            index += 1;
        }
        proof {
            assert forall|other: RendererSubmissionId| #[trigger]
                self@.carries(other, receipt_id) implies oldest is Some && (oldest->0).0
                <= other.0 by {
                assert(self.submissions@.dom().contains(other));
                assert(ids@.to_set().contains(other));
                let i = ids@.index_of(other);
                assert(ids@[i] == other);
            }
            match oldest {
                Some(id) => {
                    assert(self@.oldest_carrier(id, receipt_id));
                    lemma_carrier(self@, id, receipt_id);
                },
                None => {},
            }
        }
        oldest
    }

    /// Hands out the receipts whose merge succeeded, oldest first.
    pub fn take_succeeded_receipts(&mut self) -> (receipts: Vec<StrokeExecutionReceipt>)
        requires
            old(self)@.inv(),
        ensures
            final(self)@.inv(),
            receipts@ == old(self)@.succeeded,
            final(self)@ == (MergeModel { succeeded: Seq::empty(), ..old(self)@ }),
    {
        let mut receipts: Vec<StrokeExecutionReceipt> = Vec::new();
        std::mem::swap(&mut receipts, &mut self.succeeded_receipts);
        receipts
    }

    /// Hands out the receipts whose merge failed, oldest first.
    pub fn take_failed_receipts(&mut self) -> (failures: Vec<StrokeExecutionFailure>)
        requires
            old(self)@.inv(),
        ensures
            final(self)@.inv(),
            crate::collections::viewed_seq(failures@) == old(self)@.failed,
            final(self)@ == (MergeModel { failed: Seq::empty(), ..old(self)@ }),
    {
        let mut failures: Vec<StrokeExecutionFailure> = Vec::new();
        std::mem::swap(&mut failures, &mut self.failed_receipts);
        proof {
            assert(self@.failed =~= Seq::empty());
        }
        failures
    }

    /// The name of the state that a receipt is in, if it is tracked.
    pub fn receipt_state_label(&self, receipt_id: StrokeExecutionReceiptId) -> (label: Option<
        &'static str,
    >)
        ensures
            label == (if self@.receipts.dom().contains(receipt_id) {
                Some(self@.receipts[receipt_id].state.name())
            } else {
                None
            }),
    {
        match self.receipts.get(receipt_id) {
            None => None,
            Some(entry) => {
                assert(entry@ == self@.receipts[receipt_id]);
                Some(entry.state.label())
            },
        }
    }

    /// The number that the next submission gets.
    pub fn next_submission_id(&self) -> (id: u64)
        ensures
            id == self@.next_submission_id,
    {
        self.next_submission_id
    }

    /// The number of planned merges that wait for a submission.
    pub fn pending_receipt_count(&self) -> (count: usize)
        ensures
            count == self@.pending.len(),
    {
        self.pending_receipts.len()
    }

    /// Tells whether any receipt is tracked.
    pub fn has_receipts(&self) -> (any: bool)
        ensures
            any == (self@.receipts != Map::<StrokeExecutionReceiptId, ReceiptModel>::empty()),
    {
        let empty = self.receipts.is_empty();
        proof {
            lemma_viewed_is_empty(self.receipts@);
        }
        !empty
    }

    /// Tells whether any submission is tracked.
    pub fn has_submissions(&self) -> (any: bool)
        ensures
            any == (self@.submissions != Map::<RendererSubmissionId, SubmissionModel>::empty()),
    {
        let empty = self.submissions.is_empty();
        proof {
            lemma_viewed_is_empty(self.submissions@);
        }
        !empty
    }
}

/// A map is empty exactly if the map of the views is.
proof fn lemma_viewed_is_empty<K, V: View>(map: Map<K, V>)
    ensures
        (map == Map::<K, V>::empty()) == (crate::collections::viewed(map) == Map::<K, V::V>::empty()),
{
    if crate::collections::viewed(map) == Map::<K, V::V>::empty() {
        assert forall|k: K| !map.dom().contains(k) by {
            if map.dom().contains(k) {
                assert(crate::collections::viewed(map).dom().contains(k));
            }
        }
        assert(map =~= Map::<K, V>::empty());
    } else if map == Map::<K, V>::empty() {
        assert(crate::collections::viewed(map) =~= Map::<K, V::V>::empty());
    }
}

/// Acknowledging a notice keeps the invariant.
pub proof fn lemma_acked_inv(model: MergeModel, notice: NoticeModel)
    requires
        model.inv(),
        model.ack_error(notice) is None,
    ensures
        model.acked(notice).inv(),
{
    let next = model.acked(notice);
    let id = notice.receipt_id;
    assert(!model.pending.contains(id));
    assert forall|r: StrokeExecutionReceiptId| #[trigger]
        next.pending.contains(r) <==> next.receipts.dom().contains(r)
            && next.receipts[r].state is Planned by {
        assert(model.pending.contains(r) <==> model.receipts.dom().contains(r)
            && model.receipts[r].state is Planned);
    }
}

/// Forgetting a receipt that is not planned keeps the invariant.
pub proof fn lemma_forgotten_inv(model: MergeModel, receipt_id: StrokeExecutionReceiptId)
    requires
        model.inv(),
        model.receipts.dom().contains(receipt_id),
        !(model.receipts[receipt_id].state is Planned),
    ensures
        model.without_receipt(receipt_id).inv(),
{
    let next = model.without_receipt(receipt_id);
    assert forall|r: StrokeExecutionReceiptId| #[trigger]
        next.pending.contains(r) <==> next.receipts.dom().contains(r)
            && next.receipts[r].state is Planned by {
        assert(model.pending.contains(r) <==> model.receipts.dom().contains(r)
            && model.receipts[r].state is Planned);
    }
}

/// A device that was lost.
#[derive(Debug)]
pub struct LostDevice {
    pub reason: DeviceLostReason,
    pub message: String,
}

/// What polling the device has brought to light.
#[derive(Debug)]
pub struct DevicePoll {
    /// The error of the poll itself.
    pub poll_error: Option<String>,
    /// The losses reported since the last poll.
    pub device_lost: Vec<LostDevice>,
    /// The errors that no error scope has captured since the last poll.
    pub uncaptured_errors: Vec<String>,
    /// The signals of the submissions in flight, in the same order.
    pub signals: Vec<CompletionSignal>,
}

impl DevicePoll {
    /// The failure that a poll means for whatever is in flight. A failed poll
    /// weighs most, then the first loss, then the uncaptured errors.
    pub open spec fn failure(&self, frame_id: u64) -> Option<CompletionModel> {
        if self.poll_error is Some {
            Some(
                CompletionModel::DeviceError {
                    message: "device poll failed on frame "@ + crate::text::decimal_text(
                        frame_id as nat,
                    ) + ": "@ + self.poll_error->0@,
                },
            )
        } else if self.device_lost@.len() > 0 {
            Some(
                CompletionModel::Lost {
                    reason: self.device_lost@[0].reason,
                    message: self.device_lost@[0].message@,
                },
            )
        } else if self.uncaptured_errors@.len() > 0 {
            Some(
                CompletionModel::DeviceError {
                    message: "uncaptured gpu error while merge submissions were in flight on frame "@
                        + crate::text::decimal_text(frame_id as nat) + ": "@
                        + crate::text::joined_text(
                        crate::text::texts(self.uncaptured_errors@),
                        " | "@,
                    ),
                },
            )
        } else {
            None
        }
    }
}

impl MergeModel {
    /// The submissions that are over after a poll: all of them after a
    /// failure, and otherwise those whose callback has signalled.
    pub open spec fn polled(&self, frame_id: u64, poll: DevicePoll) -> Seq<CompletedModel> {
        match poll.failure(frame_id) {
            Some(completion) => all_completed_with(self.in_flight, completion),
            None => signalled(self.in_flight, poll.signals@),
        }
    }

    /// The submissions that are still in flight after a poll.
    pub open spec fn still_flying(&self, frame_id: u64, poll: DevicePoll) -> Seq<
        InFlightSubmission,
    > {
        match poll.failure(frame_id) {
            Some(_) => Seq::empty(),
            None => unsignalled(self.in_flight, poll.signals@),
        }
    }

    /// The state after a poll.
    pub open spec fn after_poll(&self, frame_id: u64, poll: DevicePoll) -> MergeModel {
        MergeModel {
            in_flight: self.still_flying(frame_id, poll),
            ackable: self.collect(self.polled(frame_id, poll)).ackable,
            ..*self
        }
    }
}

/// What collecting gives depends only on the submissions and on the notices
/// that can be acknowledged.
proof fn lemma_collect_frame(left: MergeModel, right: MergeModel, completed: Seq<CompletedModel>)
    requires
        left.submissions == right.submissions,
        left.ackable == right.ackable,
    ensures
        left.collect(completed) == right.collect(completed),
    decreases completed.len(),
{
    if completed.len() > 0 {
        lemma_collect_frame(left, right, completed.drop_last());
    }
}

impl MergeOrchestrator {
    /// Takes in what polling the device has brought to light, and hands out a
    /// notice for each receipt whose merge is over. A notice does not by
    /// itself change the state of its receipt.
    pub fn poll_completion_notices(&mut self, frame_id: u64, poll: DevicePoll) -> (result: Result<
        Vec<MergeCompletionNotice>,
        MergePollError,
    >)
        requires
            old(self)@.inv(),
            poll.signals@.len() == old(self)@.in_flight.len(),
        ensures
            final(self)@.inv(),
            final(self)@ == old(self)@.after_poll(frame_id, poll),
            match result {
                Ok(notices) => old(self)@.collect(old(self)@.polled(frame_id, poll)).error is None
                    && crate::collections::viewed_seq(notices@) == old(self)@.collect(
                    old(self)@.polled(frame_id, poll),
                ).notices,
                Err(error) => old(self)@.collect(old(self)@.polled(frame_id, poll)).error == Some(
                    error,
                ),
            },
    {
        let mut failure: Option<GpuSubmissionCompletion> = None;
        match &poll.poll_error {
            Some(error) => {
                let message = "device poll failed on frame ".to_owned().concat(
                    decimal(frame_id).as_str(),
                ).concat(": ").concat(error.as_str());
                failure = Some(GpuSubmissionCompletion::DeviceError { message });
            },
            None => {
                if poll.device_lost.len() > 0 {
                    failure =
                    Some(
                        GpuSubmissionCompletion::Lost {
                            reason: poll.device_lost[0].reason,
                            message: poll.device_lost[0].message.clone(),
                        },
                    );
                } else if poll.uncaptured_errors.len() > 0 {
                    let message =
                        "uncaptured gpu error while merge submissions were in flight on frame ".to_owned().concat(
                    decimal(frame_id).as_str()).concat(": ").concat(
                        join(&poll.uncaptured_errors, " | ").as_str(),
                    );
                    failure = Some(GpuSubmissionCompletion::DeviceError { message });
                }
            },
        }
        let ghost start = self@;
        let completed = match failure {
            Some(completion) => self.fail_all_in_flight_submissions(completion),
            None => self.drain_completed_submissions(&poll.signals),
        };
        proof {
            assert(crate::collections::viewed_seq(completed@) == start.polled(frame_id, poll));
            lemma_collect_frame(start, self@, crate::collections::viewed_seq(completed@));
        }
        self.collect_completion_notices(completed)
    }
}

} // verus!
