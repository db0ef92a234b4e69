//! What the device is told to do for a merge submission.
use vstd::prelude::*;

use crate::render_protocol::{
    BlendMode, GpuMergeOp, GpuTileRef, RendererSubmissionId, StrokeExecutionReceiptId,
};
use crate::renderer::merge::{MergeSubmitError, MergeTileRefRole, SubmissionGpuOp};
use crate::scalar::FloatBits;
use crate::tiles::{SlotOrigin, TileAtlasLayout, TILE_STRIDE};

verus! {

/// The part of the output that a merge copies back.
#[derive(Debug, Clone, Copy, PartialEq, Eq, Structural)]
pub struct CopyExtent {
    pub width: u32,
    pub height: u32,
    pub depth_or_array_layers: u32,
}

/// The extent of the copy into the output tile: the whole slot, so that the
/// gutter is refreshed too.
pub fn merge_output_copy_extent() -> (extent: CopyExtent)
    ensures
        extent == (CopyExtent {
            width: TILE_STRIDE,
            height: TILE_STRIDE,
            depth_or_array_layers: 1,
        }),
{
    CopyExtent { width: TILE_STRIDE, height: TILE_STRIDE, depth_or_array_layers: 1 }
}

/// The atlas has the tile.
pub open spec fn tile_ref_valid(
    tile_ref: GpuTileRef,
    atlas_layout: TileAtlasLayout,
    atlas_layer_count: u32,
) -> bool {
    tile_ref.atlas_layer < atlas_layer_count && atlas_layout.has_slot(tile_ref.tile_index)
}

/// Tells whether the atlas has the tile.
pub fn validate_tile_ref(
    tile_ref: GpuTileRef,
    atlas_layout: TileAtlasLayout,
    atlas_layer_count: u32,
) -> (valid: bool)
    ensures
        valid == tile_ref_valid(tile_ref, atlas_layout, atlas_layer_count),
{
    if tile_ref.atlas_layer >= atlas_layer_count {
        return false;
    }
    atlas_layout.contains_slot(tile_ref.tile_index)
}

/// The number under which the merge shader knows a blend mode.
pub open spec fn blend_mode_code(mode: BlendMode) -> u32 {
    match mode {
        BlendMode::Normal => 0,
        BlendMode::Multiply => 1,
    }
}

/// The number under which the merge shader knows a blend mode.
pub fn blend_mode_to_u32(mode: BlendMode) -> (code: u32)
    ensures
        code == blend_mode_code(mode),
{
    match mode {
        BlendMode::Normal => 0,
        BlendMode::Multiply => 1,
    }
}

/// A slot in a layer of an atlas, by the position of its corner.
#[derive(Debug, Clone, Copy, PartialEq, Eq, Structural)]
pub struct SlotPosition {
    pub origin: SlotOrigin,
    pub layer: u32,
}

/// One merge as the device performs it: the stroke's slot is blended over the
/// base's, and the result is copied to the output's.
#[derive(Debug, Clone, Copy, PartialEq)]
pub struct MergeStep {
    pub base: Option<SlotPosition>,
    pub stroke: SlotPosition,
    pub output: SlotPosition,
    pub blend_mode: u32,
    pub opacity: FloatBits,
}

/// The two atlases that a merge works on.
#[derive(Debug, Clone, Copy, PartialEq, Eq, Structural)]
pub struct MergeAtlases {
    pub layer_layout: TileAtlasLayout,
    pub layer_count: u32,
    pub stroke_layout: TileAtlasLayout,
    pub stroke_count: u32,
}

/// The steps of a submission up to the first operation that cannot be
/// performed, and the error that this operation gives.
#[derive(Debug)]
pub struct MergeSubmissionPlan {
    pub steps: Vec<MergeStep>,
    pub error: Option<MergeSubmitError>,
}

pub open spec fn slot_position(tile_ref: GpuTileRef, layout: TileAtlasLayout) -> SlotPosition {
    SlotPosition { origin: layout.origin(tile_ref.tile_index), layer: tile_ref.atlas_layer }
}

/// The position of a tile's slot.
pub fn tile_ref_slot_origin(tile_ref: GpuTileRef, atlas_layout: TileAtlasLayout) -> (position:
    SlotPosition)
    requires
        atlas_layout.has_slot(tile_ref.tile_index),
    ensures
        position == slot_position(tile_ref, atlas_layout),
{
    SlotPosition {
        origin: atlas_layout.slot_origin(tile_ref.tile_index),
        layer: tile_ref.atlas_layer,
    }
}

/// The step for an operation.
pub open spec fn merge_step(op: GpuMergeOp, atlases: MergeAtlases) -> MergeStep {
    MergeStep {
        base: match op.base_tile {
            Some(base) => Some(slot_position(base, atlases.layer_layout)),
            None => None,
        },
        stroke: slot_position(op.stroke_tile, atlases.layer_layout),
        output: slot_position(op.output_tile, atlases.layer_layout),
        blend_mode: blend_mode_code(op.blend_mode),
        opacity: op.opacity,
    }
}

pub open spec fn invalid_op(
    renderer_submission_id: RendererSubmissionId,
    receipt_id: Option<StrokeExecutionReceiptId>,
    op_trace_id: u64,
    reason: &'static str,
    tile: Option<(GpuTileRef, MergeTileRefRole)>,
) -> MergeSubmitError {
    MergeSubmitError::InvalidGpuMergeOp {
        renderer_submission_id,
        receipt_id,
        op_trace_id,
        reason,
        tile_ref: match tile {
            Some(named) => Some(named.0),
            None => None,
        },
        tile_ref_role: match tile {
            Some(named) => Some(named.1),
            None => None,
        },
    }
}

/// The tile of an operation that its atlas does not have, if there is one. The
/// stroke comes first, then the output, then the base.
pub open spec fn missing_tile(op: GpuMergeOp, atlases: MergeAtlases) -> Option<
    (GpuTileRef, MergeTileRefRole),
> {
    if !tile_ref_valid(op.stroke_tile, atlases.stroke_layout, atlases.stroke_count) {
        Some((op.stroke_tile, MergeTileRefRole::Stroke))
    } else if !tile_ref_valid(op.output_tile, atlases.layer_layout, atlases.layer_count) {
        Some((op.output_tile, MergeTileRefRole::Output))
    } else if op.base_tile is Some && !tile_ref_valid(
        op.base_tile->0,
        atlases.layer_layout,
        atlases.layer_count,
    ) {
        Some((op.base_tile->0, MergeTileRefRole::Base))
    } else {
        None
    }
}

/// Why an operation cannot be performed, if it cannot.
pub open spec fn op_error(
    renderer_submission_id: RendererSubmissionId,
    op: SubmissionGpuOp,
    atlases: MergeAtlases,
) -> Option<MergeSubmitError> {
    let receipt_id = Some(op.receipt_id);
    let trace = op.gpu_merge_op.op_trace_id;
    if !op.gpu_merge_op.opacity.unit_range() {
        Some(
            invalid_op(
                renderer_submission_id,
                receipt_id,
                trace,
                "merge opacity must be within [0, 1]",
                None,
            ),
        )
    } else if missing_tile(op.gpu_merge_op, atlases) is Some {
        Some(
            invalid_op(
                renderer_submission_id,
                receipt_id,
                trace,
                "merge tile reference is out of atlas bounds",
                missing_tile(op.gpu_merge_op, atlases),
            ),
        )
    } else {
        None
    }
}

/// Why nothing of a submission can be performed, if so.
pub open spec fn submission_error(
    renderer_submission_id: RendererSubmissionId,
    ops: Seq<SubmissionGpuOp>,
    atlases: MergeAtlases,
) -> Option<MergeSubmitError> {
    if ops.len() == 0 {
        Some(invalid_op(renderer_submission_id, None, 0, "empty merge op batch", None))
    } else if atlases.layer_layout != atlases.stroke_layout {
        Some(
            invalid_op(
                renderer_submission_id,
                None,
                0,
                "merge requires matching layer/stroke atlas layouts",
                None,
            ),
        )
    } else {
        None
    }
}

/// Checks one operation and places its tiles.
fn plan_merge_step(
    renderer_submission_id: RendererSubmissionId,
    op: SubmissionGpuOp,
    atlases: MergeAtlases,
) -> (result: Result<MergeStep, MergeSubmitError>)
    requires
        atlases.layer_layout == atlases.stroke_layout,
    ensures
        match op_error(renderer_submission_id, op, atlases) {
            Some(error) => result == Err::<MergeStep, _>(error),
            None => result == Ok::<_, MergeSubmitError>(merge_step(op.gpu_merge_op, atlases)),
        },
{
    let receipt_id = op.receipt_id;
    let gpu_merge_op = op.gpu_merge_op;
    if !gpu_merge_op.opacity.is_in_unit_range() {
        return Err(
            MergeSubmitError::InvalidGpuMergeOp {
                renderer_submission_id,
                receipt_id: Some(receipt_id),
                op_trace_id: gpu_merge_op.op_trace_id,
                reason: "merge opacity must be within [0, 1]",
                tile_ref: None,
                tile_ref_role: None,
            },
        );
    }
    let mut missing: Option<(GpuTileRef, MergeTileRefRole)> = None;
    if !validate_tile_ref(gpu_merge_op.stroke_tile, atlases.stroke_layout, atlases.stroke_count) {
        missing = Some((gpu_merge_op.stroke_tile, MergeTileRefRole::Stroke));
    } else if !validate_tile_ref(
        gpu_merge_op.output_tile,
        atlases.layer_layout,
        atlases.layer_count,
    ) {
        missing = Some((gpu_merge_op.output_tile, MergeTileRefRole::Output));
    } else {
        match gpu_merge_op.base_tile {
            Some(base_tile) => {
                if !validate_tile_ref(base_tile, atlases.layer_layout, atlases.layer_count) {
                    missing = Some((base_tile, MergeTileRefRole::Base));
                }
            },
            None => {},
        }
    }
    match missing {
        Some((tile_ref, role)) => {
            return Err(
                MergeSubmitError::InvalidGpuMergeOp {
                    renderer_submission_id,
                    receipt_id: Some(receipt_id),
                    op_trace_id: gpu_merge_op.op_trace_id,
                    reason: "merge tile reference is out of atlas bounds",
                    tile_ref: Some(tile_ref),
                    tile_ref_role: Some(role),
                },
            );
        },
        None => {},
    }
    let base = match gpu_merge_op.base_tile {
        Some(base_tile) => Some(tile_ref_slot_origin(base_tile, atlases.layer_layout)),
        None => None,
    };
    Ok(
        MergeStep {
            base,
            stroke: tile_ref_slot_origin(gpu_merge_op.stroke_tile, atlases.layer_layout),
            output: tile_ref_slot_origin(gpu_merge_op.output_tile, atlases.layer_layout),
            blend_mode: blend_mode_to_u32(gpu_merge_op.blend_mode),
            opacity: gpu_merge_op.opacity,
        },
    )
}

/// The steps are those of the operations before the first one that cannot be
/// performed, and the error is that of this operation, if there is one.
pub open spec fn plan_fits(
    steps: Seq<MergeStep>,
    error: Option<MergeSubmitError>,
    renderer_submission_id: RendererSubmissionId,
    ops: Seq<SubmissionGpuOp>,
    atlases: MergeAtlases,
) -> bool {
    match submission_error(renderer_submission_id, ops, atlases) {
        Some(reason) => steps.len() == 0 && error == Some(reason),
        None => {
            &&& steps.len() <= ops.len()
            &&& forall|i: int|
                0 <= i < steps.len() ==> op_error(
                    renderer_submission_id,
                    #[trigger] ops[i],
                    atlases,
                ) is None && steps[i] == merge_step(ops[i].gpu_merge_op, atlases)
            &&& if steps.len() == ops.len() {
                error is None
            } else {
                error is Some && error == op_error(
                    renderer_submission_id,
                    ops[steps.len() as int],
                    atlases,
                )
            }
        },
    }
}

/// Plans a submission, operation by operation. The operations before one that
/// cannot be performed are still performed.
pub fn plan_merge_submission(
    renderer_submission_id: RendererSubmissionId,
    gpu_merge_ops: &Vec<SubmissionGpuOp>,
    atlases: MergeAtlases,
) -> (plan: MergeSubmissionPlan)
    ensures
        plan_fits(plan.steps@, plan.error, renderer_submission_id, gpu_merge_ops@, atlases),
{
    let mut steps: Vec<MergeStep> = Vec::new();
    if gpu_merge_ops.len() == 0 {
        let error = MergeSubmitError::InvalidGpuMergeOp {
            renderer_submission_id,
            receipt_id: None,
            op_trace_id: 0,
            reason: "empty merge op batch",
            tile_ref: None,
            tile_ref_role: None,
        };
        return MergeSubmissionPlan { steps, error: Some(error) };
    }
    if atlases.layer_layout != atlases.stroke_layout {
        let error = MergeSubmitError::InvalidGpuMergeOp {
            renderer_submission_id,
            receipt_id: None,
            op_trace_id: 0,
            reason: "merge requires matching layer/stroke atlas layouts",
            tile_ref: None,
            tile_ref_role: None,
        };
        return MergeSubmissionPlan { steps, error: Some(error) };
    }
    let mut index: usize = 0;
    while index < gpu_merge_ops.len()
        invariant
            index <= gpu_merge_ops@.len(),
            gpu_merge_ops@.len() > 0,
            atlases.layer_layout == atlases.stroke_layout,
            steps@.len() == index,
            forall|i: int|
                0 <= i < index ==> op_error(
                    renderer_submission_id,
                    #[trigger] gpu_merge_ops@[i],
                    atlases,
                ) is None && steps@[i] == merge_step(gpu_merge_ops@[i].gpu_merge_op, atlases),
        decreases gpu_merge_ops@.len() - index,
    {
        match plan_merge_step(renderer_submission_id, gpu_merge_ops[index], atlases) {
            Ok(step) => {
                steps.push(step);
            },
            Err(error) => {
                return MergeSubmissionPlan { steps, error: Some(error) };
            },
        }
        index += 1;
    }
    MergeSubmissionPlan { steps, error: None }
}

/// An atlas without layers has no tile, so that no operation on it is
/// performed.
pub proof fn lemma_atlas_without_layers_has_no_tile(op: GpuMergeOp, atlases: MergeAtlases)
    requires
        atlases.layer_count == 0 || atlases.stroke_count == 0,
    ensures
        missing_tile(op, atlases) is Some,
{
}

} // verus!
