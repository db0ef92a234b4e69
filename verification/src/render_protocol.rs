//! The messages that the document side and the renderer exchange.
use std::sync::Arc;
use vstd::prelude::*;

use crate::collections::Key;
use crate::scalar::FloatBits;

verus! {

/// A row-major 4x4 matrix.
pub type TransformMatrix4x4 = [FloatBits; 16];

/// The largest number of commands in one [`BrushCommandBatch`].
pub const BRUSH_COMMAND_BATCH_CAPACITY: usize = 16;

/// The largest number of dabs in one [`BrushDabChunkF32`].
pub const BRUSH_DAB_CHUNK_CAPACITY: usize = 16;

pub type BrushId = u64;

pub type ProgramRevision = u64;

pub type StrokeSessionId = u64;

pub type ReferenceSetId = u64;

pub type LayerId = u64;

pub type TxToken = u64;

/// The handle of an image: the integer form of the slot map key under which
/// the image is stored.
#[derive(Debug, Clone, Copy, PartialEq, Eq, Hash, Structural)]
pub struct ImageHandle {
    pub key: u64,
}

/// The integer form of the slot map key that `slotmap::KeyData::from_ffi`
/// makes of `value`, read back with `KeyData::as_ffi`.
///
/// `from_ffi` takes the low half as the slot index and the high half as the
/// slot version, whose lowest bit it sets, since the version of an occupied
/// slot is odd. `as_ffi` puts the halves together again.
#[verifier::external_body]
fn key_data_from_ffi(value: u64) -> (key: u64)
    ensures
        key == value | 0x1_0000_0000u64,
{
    slotmap::KeyData::from_ffi(value).as_ffi()
}

/// The integer form of the null key, `slotmap::KeyData::default()`: the slot
/// index with every bit set, at version one.
#[verifier::external_body]
fn key_data_null() -> (key: u64)
    ensures
        key == 0x1_ffff_ffffu64,
{
    slotmap::KeyData::default().as_ffi()
}

impl ImageHandle {
    /// The handle whose key has the integer form `value`.
    pub fn from_ffi(value: u64) -> (handle: Self)
        ensures
            handle.key == value | 0x1_0000_0000u64,
    {
        ImageHandle { key: key_data_from_ffi(value) }
    }

    /// The integer form of the key.
    pub fn as_ffi(self) -> (value: u64)
        ensures
            value == self.key,
    {
        self.key
    }
}

impl Default for ImageHandle {
    /// The null handle, which names no image.
    fn default() -> (handle: Self)
        ensures
            handle.key == 0x1_ffff_ffffu64,
    {
        ImageHandle { key: key_data_null() }
    }
}

/// Converting a handle to an integer and back gives the same handle.
pub proof fn lemma_image_handle_round_trip(value: u64)
    ensures
        (value | 0x1_0000_0000u64) | 0x1_0000_0000u64 == value | 0x1_0000_0000u64,
{
    assert((value | 0x1_0000_0000u64) | 0x1_0000_0000u64 == value | 0x1_0000_0000u64) by (bit_vector);
}

#[derive(Debug, Clone, Copy, PartialEq, Eq, Hash, Structural)]
pub struct BrushProgramKey {
    pub brush_id: BrushId,
    pub program_revision: ProgramRevision,
}

impl Key for BrushProgramKey {
    fn same(&self, other: &Self) -> (same: bool) {
        self.brush_id == other.brush_id && self.program_revision == other.program_revision
    }
}

#[derive(Debug, Clone, PartialEq)]
pub struct BrushProgramUpsert {
    pub brush_id: BrushId,
    pub program_revision: ProgramRevision,
    pub payload_hash: u64,
    pub wgsl_source: String,
}

#[derive(Debug, Clone, Copy, PartialEq, Eq, Structural)]
pub struct BrushProgramActivation {
    pub brush_id: BrushId,
    pub program_revision: ProgramRevision,
}

#[derive(Debug, Clone, Copy, PartialEq, Eq, Structural)]
pub struct BrushStrokeBegin {
    pub stroke_session_id: StrokeSessionId,
    pub brush_id: BrushId,
    pub program_revision: ProgramRevision,
    pub reference_set_id: ReferenceSetId,
    pub target_layer_id: LayerId,
    pub discontinuity_before: bool,
}

#[derive(Debug, Clone, Copy, PartialEq, Eq, Structural)]
pub enum ReferenceLayerSelection {
    CurrentLayer,
    CurrentAndBelow,
    AllLayers,
    ExplicitLayer { layer_id: u64 },
}

#[derive(Debug, Clone, Copy, PartialEq, Eq, Structural)]
pub struct ReferenceSetUpsert {
    pub reference_set_id: ReferenceSetId,
    pub selection: ReferenceLayerSelection,
}

#[derive(Debug, Clone, Copy, PartialEq, Eq, Structural)]
pub enum BrushDabChunkBuildError {
    TooManyDabs,
    MismatchedFieldLengths,
}

/// Up to [`BRUSH_DAB_CHUNK_CAPACITY`] dabs of one stroke, field by field.
#[derive(Debug, Clone, PartialEq)]
pub struct BrushDabChunkF32 {
    pub stroke_session_id: StrokeSessionId,
    pub len: u8,
    pub canvas_x: [FloatBits; BRUSH_DAB_CHUNK_CAPACITY],
    pub canvas_y: [FloatBits; BRUSH_DAB_CHUNK_CAPACITY],
    pub pressure: [FloatBits; BRUSH_DAB_CHUNK_CAPACITY],
}

/// What a chunk of samples holds: three columns of equal length.
pub struct SampleColumns {
    pub canvas_x: Seq<FloatBits>,
    pub canvas_y: Seq<FloatBits>,
    pub pressure: Seq<FloatBits>,
}

/// The first `source.len()` places of a fixed-size column, filled from `source`.
fn fill_column(source: &[FloatBits]) -> (column: [FloatBits; 16])
    requires
        source@.len() <= 16,
    ensures
        column@.len() == 16,
        column@.take(source@.len() as int) == source@,
        forall|i: int| source@.len() <= i < 16 ==> column@[i] == FloatBits(0),
{
    let mut column: [FloatBits; 16] = [FloatBits(0); 16];
    let mut index: usize = 0;
    while index < source.len()
        invariant
            index <= source@.len() <= 16,
            column@.len() == 16,
            forall|i: int| 0 <= i < index ==> column@[i] == source@[i],
            forall|i: int| index <= i < 16 ==> column@[i] == FloatBits(0),
        decreases source@.len() - index,
    {
        column[index] = source[index];
        index += 1;
    }
    assert(column@.take(source@.len() as int) =~= source@);
    column
}

/// The first `len` places of a column.
fn used_part(column: &[FloatBits; 16], len: usize) -> (used: &[FloatBits])
    requires
        len <= 16,
    ensures
        used@ == column@.take(len as int),
{
    let whole: &[FloatBits] = column.as_slice();
    let used = vstd::slice::slice_subrange(whole, 0, len);
    assert(used@ =~= column@.take(len as int));
    used
}

impl View for BrushDabChunkF32 {
    type V = SampleColumns;

    open spec fn view(&self) -> SampleColumns {
        SampleColumns {
            canvas_x: self.canvas_x@.take(self.len as int),
            canvas_y: self.canvas_y@.take(self.len as int),
            pressure: self.pressure@.take(self.len as int),
        }
    }
}

impl BrushDabChunkF32 {
    /// The number of dabs is within the capacity.
    pub open spec fn inv(&self) -> bool {
        self.len <= BRUSH_DAB_CHUNK_CAPACITY
    }

    /// Packs the dabs of a stroke, given as three columns.
    pub fn from_slices(
        stroke_session_id: StrokeSessionId,
        canvas_x: &[FloatBits],
        canvas_y: &[FloatBits],
        pressure: &[FloatBits],
    ) -> (result: Result<Self, BrushDabChunkBuildError>)
        ensures
            canvas_x@.len() > BRUSH_DAB_CHUNK_CAPACITY ==> result == Err::<Self, _>(
                BrushDabChunkBuildError::TooManyDabs,
            ),
            canvas_x@.len() <= BRUSH_DAB_CHUNK_CAPACITY && (canvas_x@.len() != canvas_y@.len()
                || canvas_x@.len() != pressure@.len()) ==> result == Err::<Self, _>(
                BrushDabChunkBuildError::MismatchedFieldLengths,
            ),
            canvas_x@.len() <= BRUSH_DAB_CHUNK_CAPACITY && canvas_x@.len() == canvas_y@.len()
                && canvas_x@.len() == pressure@.len() ==> match result {
                Ok(chunk) => chunk.inv() && chunk.stroke_session_id == stroke_session_id
                    && chunk@.canvas_x == canvas_x@ && chunk@.canvas_y == canvas_y@
                    && chunk@.pressure == pressure@,
                Err(_) => false,
            },
    {
        if canvas_x.len() > BRUSH_DAB_CHUNK_CAPACITY {
            return Err(BrushDabChunkBuildError::TooManyDabs);
        }
        if canvas_x.len() != canvas_y.len() || canvas_x.len() != pressure.len() {
            return Err(BrushDabChunkBuildError::MismatchedFieldLengths);
        }
        Ok(
            BrushDabChunkF32 {
                stroke_session_id,
                len: canvas_x.len() as u8,
                canvas_x: fill_column(canvas_x),
                canvas_y: fill_column(canvas_y),
                pressure: fill_column(pressure),
            },
        )
    }

    /// The number of dabs.
    pub fn dab_count(&self) -> (count: usize)
        requires
            self.inv(),
        ensures
            count == self@.canvas_x.len(),
            count == self@.canvas_y.len(),
            count == self@.pressure.len(),
            count <= BRUSH_DAB_CHUNK_CAPACITY,
    {
        self.len as usize
    }

    pub fn canvas_x(&self) -> (column: &[FloatBits])
        requires
            self.inv(),
        ensures
            column@ == self@.canvas_x,
    {
        used_part(&self.canvas_x, self.len as usize)
    }

    pub fn canvas_y(&self) -> (column: &[FloatBits])
        requires
            self.inv(),
        ensures
            column@ == self@.canvas_y,
    {
        used_part(&self.canvas_y, self.len as usize)
    }

    pub fn pressure(&self) -> (column: &[FloatBits])
        requires
            self.inv(),
        ensures
            column@ == self@.pressure,
    {
        used_part(&self.pressure, self.len as usize)
    }
}

#[derive(Debug, Clone, Copy, PartialEq, Eq, Structural)]
pub struct BrushStrokeEnd {
    pub stroke_session_id: StrokeSessionId,
}

#[derive(Debug, Clone, Copy, PartialEq, Eq, Structural)]
pub struct BrushBufferMerge {
    pub stroke_session_id: StrokeSessionId,
    pub target_layer_id: LayerId,
}

#[derive(Debug, Clone, Copy, PartialEq, Eq, Hash, Structural)]
pub struct StrokeExecutionReceiptId(pub u64);

impl Key for StrokeExecutionReceiptId {
    fn same(&self, other: &Self) -> (same: bool) {
        self.0 == other.0
    }
}

#[derive(Debug, Clone, Copy, PartialEq, Eq, Structural)]
pub struct StrokeExecutionReceipt {
    pub receipt_id: StrokeExecutionReceiptId,
    pub stroke_session_id: StrokeSessionId,
    pub tx_token: TxToken,
    pub program_revision: Option<ProgramRevision>,
}

#[derive(Debug, Clone, Copy, PartialEq, Eq, Hash, Structural)]
pub struct RendererSubmissionId(pub u64);

impl Key for RendererSubmissionId {
    fn same(&self, other: &Self) -> (same: bool) {
        self.0 == other.0
    }
}

#[derive(Debug, Clone, Copy, PartialEq, Eq, Structural)]
pub struct MergePlanMeta {
    pub stroke_session_id: StrokeSessionId,
    pub tx_token: TxToken,
    pub program_revision: Option<ProgramRevision>,
}

#[derive(Debug, Clone, Copy, PartialEq, Eq, Structural)]
pub struct MergeAuditMeta {
    pub frame_id: u64,
    pub renderer_submission_id: RendererSubmissionId,
    pub op_trace_id: Option<u64>,
}

#[derive(Debug, Clone, Copy, PartialEq, Eq, Structural)]
pub enum MergeOpStage {
    Merge,
}

#[derive(Debug, Clone, PartialEq, Eq)]
pub struct MergeErrorContext {
    pub receipt_id: StrokeExecutionReceiptId,
    pub stroke_session_id: StrokeSessionId,
    pub tx_token: TxToken,
    pub frame_id: u64,
    pub renderer_submission_id: RendererSubmissionId,
    pub op_stage: MergeOpStage,
    pub message: String,
}

#[derive(Debug, Clone, PartialEq, Eq)]
pub struct StrokeExecutionFailure {
    pub receipt: StrokeExecutionReceipt,
    pub error_ctx: MergeErrorContext,
}

#[derive(Debug, Clone, PartialEq, Eq)]
pub enum ExecutionStatus {
    Pending,
    Succeeded,
    Failed(MergeErrorContext),
}

#[derive(Debug, Clone, PartialEq, Eq)]
pub struct ReceiptProgress {
    pub receipt: StrokeExecutionReceipt,
    pub status: ExecutionStatus,
}

#[derive(Debug, Clone, PartialEq, Eq)]
pub enum MergeExecutionResult {
    Succeeded,
    Failed { message: String },
}

#[derive(Debug, Clone, PartialEq, Eq)]
pub struct SubmissionReport {
    pub frame_id: u64,
    pub renderer_submission_id: Option<RendererSubmissionId>,
    pub receipt_ids: Vec<StrokeExecutionReceiptId>,
}

#[derive(Debug, Clone, Copy, PartialEq, Eq, Structural)]
pub enum ReceiptTerminalState {
    Finalized,
    Aborted,
}

#[derive(Debug, Clone, Copy, PartialEq)]
pub struct GpuMergeOp {
    pub base_tile: Option<GpuTileRef>,
    pub stroke_tile: GpuTileRef,
    pub output_tile: GpuTileRef,
    pub blend_mode: BlendMode,
    pub opacity: FloatBits,
    pub op_trace_id: u64,
}

#[derive(Debug, Clone, Copy, PartialEq, Eq, Structural)]
pub struct GpuTileRef {
    pub atlas_layer: u32,
    pub tile_index: u16,
}

#[derive(Debug, Clone, PartialEq)]
pub enum BrushControlCommand {
    UpsertBrushProgram(BrushProgramUpsert),
    ActivateBrushProgram(BrushProgramActivation),
    UpsertReferenceSet(ReferenceSetUpsert),
}

#[derive(Debug, Clone, Copy, PartialEq, Eq, Structural)]
pub enum BrushControlAck {
    Prepared,
    AlreadyPrepared,
    Activated,
    ReferenceSetUpserted,
}

/// The position of a tile in a stroke's buffer.
#[derive(Debug, Clone, Copy, PartialEq, Eq, Hash, Structural)]
pub struct BufferTileCoordinate {
    pub tile_x: i32,
    pub tile_y: i32,
}

impl Key for BufferTileCoordinate {
    fn same(&self, other: &Self) -> (same: bool) {
        self.tile_x == other.tile_x && self.tile_y == other.tile_y
    }
}

/// Tiles that a stroke's buffer needs.
#[derive(Debug, Clone, PartialEq, Eq)]
pub struct BrushBufferAllocate {
    pub stroke_session_id: StrokeSessionId,
    pub tiles: Vec<BufferTileCoordinate>,
}

#[derive(Debug, Clone, PartialEq)]
pub enum BrushRenderCommand {
    BeginStroke(BrushStrokeBegin),
    AllocateBufferTiles(BrushBufferAllocate),
    PushDabChunkF32(BrushDabChunkF32),
    MergeBuffer(BrushBufferMerge),
    EndStroke(BrushStrokeEnd),
}

#[derive(Debug, Clone, Copy, PartialEq, Eq, Structural)]
pub enum BrushCommandBatchBuildError {
    TooManyCommands,
    MismatchedFieldLengths,
}

/// Up to [`BRUSH_COMMAND_BATCH_CAPACITY`] brush commands of one stroke, field
/// by field.
#[derive(Debug, Clone, PartialEq)]
pub struct BrushCommandBatch {
    pub revision: u64,
    pub stroke_session_id: u64,
    pub discontinuity_before: bool,
    pub len: u8,
    pub canvas_x: [FloatBits; BRUSH_COMMAND_BATCH_CAPACITY],
    pub canvas_y: [FloatBits; BRUSH_COMMAND_BATCH_CAPACITY],
    pub pressure: [FloatBits; BRUSH_COMMAND_BATCH_CAPACITY],
}

impl View for BrushCommandBatch {
    type V = SampleColumns;

    open spec fn view(&self) -> SampleColumns {
        SampleColumns {
            canvas_x: self.canvas_x@.take(self.len as int),
            canvas_y: self.canvas_y@.take(self.len as int),
            pressure: self.pressure@.take(self.len as int),
        }
    }
}

impl BrushCommandBatch {
    /// The number of commands is within the capacity.
    pub open spec fn inv(&self) -> bool {
        self.len <= BRUSH_COMMAND_BATCH_CAPACITY
    }

    /// Packs the commands of a stroke, given as three columns.
    pub fn from_slices(
        revision: u64,
        stroke_session_id: u64,
        discontinuity_before: bool,
        canvas_x: &[FloatBits],
        canvas_y: &[FloatBits],
        pressure: &[FloatBits],
    ) -> (result: Result<Self, BrushCommandBatchBuildError>)
        ensures
            canvas_x@.len() > BRUSH_COMMAND_BATCH_CAPACITY ==> result == Err::<Self, _>(
                BrushCommandBatchBuildError::TooManyCommands,
            ),
            canvas_x@.len() <= BRUSH_COMMAND_BATCH_CAPACITY && (canvas_x@.len() != canvas_y@.len()
                || canvas_x@.len() != pressure@.len()) ==> result == Err::<Self, _>(
                BrushCommandBatchBuildError::MismatchedFieldLengths,
            ),
            canvas_x@.len() <= BRUSH_COMMAND_BATCH_CAPACITY && canvas_x@.len() == canvas_y@.len()
                && canvas_x@.len() == pressure@.len() ==> match result {
                Ok(batch) => batch.inv() && batch.revision == revision
                    && batch.stroke_session_id == stroke_session_id && batch.discontinuity_before
                    == discontinuity_before && batch@.canvas_x == canvas_x@ && batch@.canvas_y
                    == canvas_y@ && batch@.pressure == pressure@,
                Err(_) => false,
            },
    {
        if canvas_x.len() > BRUSH_COMMAND_BATCH_CAPACITY {
            return Err(BrushCommandBatchBuildError::TooManyCommands);
        }
        if canvas_x.len() != canvas_y.len() || canvas_x.len() != pressure.len() {
            return Err(BrushCommandBatchBuildError::MismatchedFieldLengths);
        }
        Ok(
            BrushCommandBatch {
                revision,
                stroke_session_id,
                discontinuity_before,
                len: canvas_x.len() as u8,
                canvas_x: fill_column(canvas_x),
                canvas_y: fill_column(canvas_y),
                pressure: fill_column(pressure),
            },
        )
    }

    /// The number of commands.
    pub fn command_count(&self) -> (count: usize)
        requires
            self.inv(),
        ensures
            count == self@.canvas_x.len(),
            count == self@.canvas_y.len(),
            count == self@.pressure.len(),
            count <= BRUSH_COMMAND_BATCH_CAPACITY,
    {
        self.len as usize
    }

    pub fn canvas_x(&self) -> (column: &[FloatBits])
        requires
            self.inv(),
        ensures
            column@ == self@.canvas_x,
    {
        used_part(&self.canvas_x, self.len as usize)
    }

    pub fn canvas_y(&self) -> (column: &[FloatBits])
        requires
            self.inv(),
        ensures
            column@ == self@.canvas_y,
    {
        used_part(&self.canvas_y, self.len as usize)
    }

    pub fn pressure(&self) -> (column: &[FloatBits])
        requires
            self.inv(),
        ensures
            column@ == self@.pressure,
    {
        used_part(&self.pressure, self.len as usize)
    }
}

#[derive(Debug, Clone, Copy, PartialEq, Eq, Structural)]
pub struct Viewport {
    pub origin_x: u32,
    pub origin_y: u32,
    pub width: u32,
    pub height: u32,
}

/// One version of the tree of layers that makes up a document.
#[derive(Debug, Clone, PartialEq, Eq)]
pub struct RenderTreeSnapshot {
    pub revision: u64,
    pub root: Arc<RenderNodeSnapshot>,
}

#[derive(Debug, Clone, PartialEq, Eq)]
pub enum RenderNodeSnapshot {
    Leaf { layer_id: u64, blend: BlendMode, image_handle: ImageHandle },
    Group { group_id: u64, blend: BlendMode, children: Arc<Vec<RenderNodeSnapshot>> },
}

#[derive(Debug, Clone, Copy, PartialEq, Eq, Hash, Structural)]
pub enum BlendMode {
    Normal,
    Multiply,
}

#[derive(Debug, Clone, Copy, PartialEq, Eq, Structural)]
pub enum BlendModePipelineStrategy {
    SurfaceAlphaBlend,
    SurfaceMultiplyBlend,
    Unsupported,
}

#[derive(Debug, Clone, Copy, PartialEq, Eq, Structural)]
pub enum GroupPassStrategy {
    IsolatedOffscreenComposite,
    Unsupported,
}

/// What the renderer can execute: a strategy for each blend mode, and one for
/// groups.
#[derive(Debug, Clone, Copy, PartialEq, Eq, Structural)]
pub struct RenderStepSupportMatrix {
    pub normal_blend_strategy: BlendModePipelineStrategy,
    pub multiply_blend_strategy: BlendModePipelineStrategy,
    pub group_strategy: GroupPassStrategy,
}

impl RenderStepSupportMatrix {
    /// The strategy for a blend mode.
    pub open spec fn strategy_of(&self, blend_mode: BlendMode) -> BlendModePipelineStrategy {
        match blend_mode {
            BlendMode::Normal => self.normal_blend_strategy,
            BlendMode::Multiply => self.multiply_blend_strategy,
        }
    }

    /// What the renderer executes today.
    pub open spec fn current() -> Self {
        RenderStepSupportMatrix {
            normal_blend_strategy: BlendModePipelineStrategy::SurfaceAlphaBlend,
            multiply_blend_strategy: BlendModePipelineStrategy::SurfaceMultiplyBlend,
            group_strategy: GroupPassStrategy::IsolatedOffscreenComposite,
        }
    }

    pub fn current_executable_semantics() -> (matrix: Self)
        ensures
            matrix == Self::current(),
    {
        RenderStepSupportMatrix {
            normal_blend_strategy: BlendModePipelineStrategy::SurfaceAlphaBlend,
            multiply_blend_strategy: BlendModePipelineStrategy::SurfaceMultiplyBlend,
            group_strategy: GroupPassStrategy::IsolatedOffscreenComposite,
        }
    }

    pub fn blend_strategy(&self, blend_mode: BlendMode) -> (strategy: BlendModePipelineStrategy)
        ensures
            strategy == self.strategy_of(blend_mode),
    {
        match blend_mode {
            BlendMode::Normal => self.normal_blend_strategy,
            BlendMode::Multiply => self.multiply_blend_strategy,
        }
    }

    pub fn group_strategy(&self) -> (strategy: GroupPassStrategy)
        ensures
            strategy == self.group_strategy,
    {
        self.group_strategy
    }
}

#[derive(Debug, Clone, Copy, PartialEq, Eq, Structural)]
pub enum RenderStepUnsupportedReason {
    BlendModeUnsupported { blend_mode: BlendMode },
    GroupCompositingUnsupported,
}

#[derive(Debug, Clone, Copy, PartialEq, Eq, Structural)]
pub struct RenderStepValidationError {
    pub step_index: usize,
    pub reason: RenderStepUnsupportedReason,
}

/// What the renderer has to be able to do for one node.
pub struct RenderStep {
    pub blend: BlendMode,
    pub group: bool,
}

/// The steps of a tree: each node before its children, the children in order.
pub open spec fn render_steps(node: RenderNodeSnapshot) -> Seq<RenderStep>
    decreases node,
{
    match node {
        RenderNodeSnapshot::Leaf { blend, .. } => seq![RenderStep { blend, group: false }],
        RenderNodeSnapshot::Group { blend, children, .. } => seq![RenderStep { blend, group: true }]
            + render_steps_of(children@),
    }
}

/// The steps of several trees, one after the other.
pub open spec fn render_steps_of(nodes: Seq<RenderNodeSnapshot>) -> Seq<RenderStep>
    decreases nodes,
{
    if nodes.len() == 0 {
        Seq::empty()
    } else {
        render_steps(nodes[0]) + render_steps_of(nodes.drop_first())
    }
}

/// Why `support` does not allow a step, if it does not. The blend mode is
/// looked at first.
pub open spec fn unsupported_reason(
    support: RenderStepSupportMatrix,
    step: RenderStep,
) -> Option<RenderStepUnsupportedReason> {
    if support.strategy_of(step.blend) is Unsupported {
        Some(RenderStepUnsupportedReason::BlendModeUnsupported { blend_mode: step.blend })
    } else if step.group && support.group_strategy is Unsupported {
        Some(RenderStepUnsupportedReason::GroupCompositingUnsupported)
    } else {
        None
    }
}

/// The steps of the nodes that wait on a stack, the top of which is its last
/// element.
spec fn stacked_steps(stack: Seq<&RenderNodeSnapshot>) -> Seq<RenderStep>
    decreases stack.len(),
{
    if stack.len() == 0 {
        Seq::empty()
    } else {
        render_steps(*stack.last()) + stacked_steps(stack.drop_last())
    }
}

proof fn lemma_stacked_push(stack: Seq<&RenderNodeSnapshot>, node: &RenderNodeSnapshot)
    ensures
        stacked_steps(stack.push(node)) == render_steps(*node) + stacked_steps(stack),
{
    assert(stack.push(node).drop_last() =~= stack);
}

impl RenderTreeSnapshot {
    /// The steps of the tree, in the order in which they are checked.
    pub open spec fn steps(&self) -> Seq<RenderStep> {
        render_steps(*self.root)
    }

    /// Checks that `support` allows every step of the tree. The error names
    /// the first step that it does not allow.
    pub fn validate_executable(&self, support: &RenderStepSupportMatrix) -> (result: Result<
        (),
        RenderStepValidationError,
    >)
        requires
            self.steps().len() <= usize::MAX,
        ensures
            match result {
                Ok(()) => forall|i: int|
                    0 <= i < self.steps().len() ==> unsupported_reason(
                        *support,
                        #[trigger] self.steps()[i],
                    ) is None,
                Err(error) => {
                    &&& error.step_index < self.steps().len()
                    &&& unsupported_reason(
                        *support,
                        self.steps()[error.step_index as int],
                    ) == Some(error.reason)
                    &&& forall|i: int|
                        0 <= i < error.step_index ==> unsupported_reason(
                            *support,
                            #[trigger] self.steps()[i],
                        ) is None
                },
            },
    {
        let ghost steps = self.steps();
        let mut stack: Vec<&RenderNodeSnapshot> = Vec::new();
        stack.push(&*self.root);
        proof {
            lemma_stacked_push(Seq::empty(), &*self.root);
            assert(stack@ =~= Seq::<&RenderNodeSnapshot>::empty().push(&*self.root));
            assert(stacked_steps(stack@) =~= steps);
            assert(steps.skip(0) =~= steps);
        }
        let mut node_index: usize = 0;
        while stack.len() > 0
            invariant
                steps == self.steps(),
                steps.len() <= usize::MAX,
                node_index <= steps.len(),
                stacked_steps(stack@) == steps.skip(node_index as int),
                forall|i: int|
                    0 <= i < node_index ==> unsupported_reason(*support, #[trigger] steps[i]) is None,
            decreases steps.len() - node_index,
        {
            let ghost before = stack@;
            let node = stack.pop().unwrap();
            let ghost rest = stack@;
            proof {
                assert(rest =~= before.drop_last());
                assert(stacked_steps(before) == render_steps(*node) + stacked_steps(rest));
                assert(render_steps(*node).len() > 0);
                assert(node_index < steps.len());
                assert(steps.skip(node_index + 1) =~= steps.skip(node_index as int).skip(1));
                assert(steps[node_index as int] == steps.skip(node_index as int)[0]);
                assert(steps[node_index as int] == render_steps(*node)[0]);
            }
            match node {
                RenderNodeSnapshot::Leaf { blend, .. } => {
                    match support.blend_strategy(*blend) {
                        BlendModePipelineStrategy::Unsupported => {
                            return Err(
                                RenderStepValidationError {
                                    step_index: node_index,
                                    reason: RenderStepUnsupportedReason::BlendModeUnsupported {
                                        blend_mode: *blend,
                                    },
                                },
                            );
                        },
                        _ => {},
                    }
                    proof {
                        assert((render_steps(*node) + stacked_steps(rest)).skip(1) =~= stacked_steps(rest));
                    }
                },
                RenderNodeSnapshot::Group { blend, children, .. } => {
                    match support.blend_strategy(*blend) {
                        BlendModePipelineStrategy::Unsupported => {
                            return Err(
                                RenderStepValidationError {
                                    step_index: node_index,
                                    reason: RenderStepUnsupportedReason::BlendModeUnsupported {
                                        blend_mode: *blend,
                                    },
                                },
                            );
                        },
                        _ => {},
                    }
                    match support.group_strategy() {
                        GroupPassStrategy::Unsupported => {
                            return Err(
                                RenderStepValidationError {
                                    step_index: node_index,
                                    reason: RenderStepUnsupportedReason::GroupCompositingUnsupported,
                                },
                            );
                        },
                        _ => {},
                    }
                    let mut remaining: usize = children.len();
                    proof {
                        assert(children@.skip(remaining as int) =~= Seq::empty());
                        assert(render_steps_of(children@.skip(remaining as int)) =~= Seq::empty());
                        assert(stacked_steps(stack@) =~= render_steps_of(
                            children@.skip(remaining as int),
                        ) + stacked_steps(rest));
                    }
                    while remaining > 0
                        invariant
                            remaining <= children@.len(),
                            stacked_steps(stack@) == render_steps_of(
                                children@.skip(remaining as int),
                            ) + stacked_steps(rest),
                        decreases remaining,
                    {
                        remaining -= 1;
                        let ghost lower = stack@;
                        let child = &children[remaining];
                        stack.push(child);
                        proof {
                            lemma_stacked_push(lower, child);
                            let tail = children@.skip(remaining as int);
                            assert(tail.drop_first() =~= children@.skip(remaining + 1));
                            assert(render_steps_of(tail) == render_steps(*child) + render_steps_of(
                                tail.drop_first(),
                            ));
                            assert(stacked_steps(stack@) =~= render_steps_of(tail) + stacked_steps(
                                rest,
                            ));
                        }
                    }
                    proof {
                        assert(children@.skip(0) =~= children@);
                        assert((render_steps(*node) + stacked_steps(rest)).skip(1) =~= render_steps_of(
                            children@,
                        ) + stacked_steps(rest));
                    }
                },
            }
            node_index += 1;
        }
        proof {
            assert(stacked_steps(stack@).len() == 0);
            assert(steps.skip(node_index as int).len() == steps.len() - node_index);
        }
        Ok(())
    }
}

/// The current executable semantics allow every step of every tree: any tree
/// is accepted.
pub proof fn lemma_current_semantics_accept_every_tree(snapshot: RenderTreeSnapshot)
    ensures
        forall|i: int|
            0 <= i < snapshot.steps().len() ==> unsupported_reason(
                RenderStepSupportMatrix::current(),
                #[trigger] snapshot.steps()[i],
            ) is None,
{
}

#[derive(Debug, Clone, PartialEq)]
pub enum RenderOp {
    SetViewTransform { matrix: TransformMatrix4x4 },
    SetViewport(Viewport),
    BindRenderTree(RenderTreeSnapshot),
    MarkLayerDirty { layer_id: u64 },
    SetBrushCommandQuota { max_commands: u32 },
    DropStaleWorkBeforeRevision { revision: u64 },
    PresentToSurface,
}

} // verus!
