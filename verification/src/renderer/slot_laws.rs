//! Where tiles are read and written in an atlas, in terms of their slots.
use vstd::prelude::*;

use crate::render_protocol::{GpuMergeOp, GpuTileRef, RendererSubmissionId};
use crate::renderer::merge::{MergeSubmitError, MergeTileRefRole, SubmissionGpuOp};
use crate::renderer::merge_submission::{MergeAtlases, MergeStep, SlotPosition};
use crate::tiles::TileAtlasLayout;

verus! {

/// The slot with its corner at these texels is the one with this index: slots are
/// squares of 128 texels, numbered row by row.
pub open spec fn is_corner_of(layout: TileAtlasLayout, x: u32, y: u32, tile_index: u16) -> bool {
    &&& x % 128 == 0
    &&& y % 128 == 0
    &&& x as int / 128 < layout.tiles_per_row
    &&& y as int / 128 < layout.tiles_per_column
    &&& (y as int / 128) * layout.tiles_per_row + x as int / 128 == tile_index
}

/// The corner of a slot tells which slot it is.
pub proof fn lemma_corner_tells_the_slot(layout: TileAtlasLayout, tile_index: u16)
    requires
        layout.has_slot(tile_index),
    ensures
        is_corner_of(
            layout,
            layout.origin(tile_index).x,
            layout.origin(tile_index).y,
            tile_index,
        ),
{
    let index = tile_index as int;
    let row = layout.tiles_per_row as int;
    let column = layout.tiles_per_column as int;
    assert(row > 0) by (nonlinear_arith)
        requires
            0 <= index < row * column,
            row >= 0,
            column >= 0,
    ;
    assert(0 <= index % row <= index && 0 <= index / row <= index && index % row < row && index
        / row < column && index == (index / row) * row + index % row) by (nonlinear_arith)
        requires
            0 <= index < row * column,
            row > 0,
            column >= 0,
    ;
}

/// The position is that of the tile.
pub open spec fn is_position_of(
    position: SlotPosition,
    tile: GpuTileRef,
    layout: TileAtlasLayout,
) -> bool {
    &&& position.layer == tile.atlas_layer
    &&& is_corner_of(layout, position.origin.x, position.origin.y, tile.tile_index)
}

/// The step does what the operation asks for: it blends over a base exactly if the
/// operation names one, its positions are those of the operation's tiles, and it
/// blends as the operation says.
pub open spec fn performs(step: MergeStep, op: GpuMergeOp, layout: TileAtlasLayout) -> bool {
    &&& step.base is Some <==> op.base_tile is Some
    &&& op.base_tile is Some ==> is_position_of(step.base->0, op.base_tile->0, layout)
    &&& is_position_of(step.stroke, op.stroke_tile, layout)
    &&& is_position_of(step.output, op.output_tile, layout)
    &&& step.opacity == op.opacity
    &&& op.blend_mode is Normal ==> step.blend_mode == 0
    &&& op.blend_mode is Multiply ==> step.blend_mode == 1
}

/// The atlas with so many layers has the tile.
pub open spec fn is_in_atlas(tile: GpuTileRef, layout: TileAtlasLayout, layers: u32) -> bool {
    tile.atlas_layer < layers && tile.tile_index < layout.tiles_per_row * layout.tiles_per_column
}

/// The operation can be performed: its opacity lies within `[0, 1]`, and the
/// atlases have its tiles.
pub open spec fn is_performable(op: GpuMergeOp, atlases: MergeAtlases) -> bool {
    &&& op.opacity.0 <= 0x3f80_0000 || op.opacity.0 == 0x8000_0000
    &&& is_in_atlas(op.stroke_tile, atlases.stroke_layout, atlases.stroke_count)
    &&& is_in_atlas(op.output_tile, atlases.layer_layout, atlases.layer_count)
    &&& op.base_tile is Some ==> is_in_atlas(
        op.base_tile->0,
        atlases.layer_layout,
        atlases.layer_count,
    )
}

/// The error is about the operation, and names a tile only if the operation has it
/// in that role and the atlas does not have it.
pub open spec fn is_error_of(
    error: MergeSubmitError,
    id: RendererSubmissionId,
    op: SubmissionGpuOp,
    atlases: MergeAtlases,
) -> bool {
    &&& error matches MergeSubmitError::InvalidGpuMergeOp {
        renderer_submission_id,
        receipt_id,
        op_trace_id,
        tile_ref,
        tile_ref_role,
        ..
    }
    &&& renderer_submission_id == id
    &&& receipt_id == Some(op.receipt_id)
    &&& op_trace_id == op.gpu_merge_op.op_trace_id
    &&& tile_ref is Some <==> tile_ref_role is Some
    &&& tile_ref is None ==> 0x3f80_0000 < op.gpu_merge_op.opacity.0
        && op.gpu_merge_op.opacity.0 != 0x8000_0000
    &&& tile_ref_role == Some(MergeTileRefRole::Stroke) ==> tile_ref == Some(
        op.gpu_merge_op.stroke_tile,
    ) && !is_in_atlas(tile_ref->0, atlases.stroke_layout, atlases.stroke_count)
    &&& tile_ref_role == Some(MergeTileRefRole::Output) ==> tile_ref == Some(
        op.gpu_merge_op.output_tile,
    ) && !is_in_atlas(tile_ref->0, atlases.layer_layout, atlases.layer_count)
    &&& tile_ref_role == Some(MergeTileRefRole::Base) ==> tile_ref is Some && tile_ref
        == op.gpu_merge_op.base_tile && !is_in_atlas(
        tile_ref->0,
        atlases.layer_layout,
        atlases.layer_count,
    )
}

/// A planned submission performs its operations, in order, up to the first that
/// cannot be performed, whose error it gives; it has no error exactly if all of
/// them can be. Without operations, or with atlases that are laid out differently,
/// it performs nothing.
pub proof fn lemma_submission_performs_its_operations(
    steps: Seq<MergeStep>,
    error: Option<MergeSubmitError>,
    id: RendererSubmissionId,
    ops: Seq<SubmissionGpuOp>,
    atlases: MergeAtlases,
)
    requires
        crate::renderer::merge_submission::plan_fits(steps, error, id, ops, atlases),
    ensures
        steps.len() <= ops.len(),
        forall|k: int|
            0 <= k < steps.len() ==> performs(
                #[trigger] steps[k],
                ops[k].gpu_merge_op,
                atlases.layer_layout,
            ) && is_performable(ops[k].gpu_merge_op, atlases),
        ops.len() == 0 || atlases.layer_layout != atlases.stroke_layout ==> steps.len() == 0
            && error is Some,
        ops.len() > 0 && atlases.layer_layout == atlases.stroke_layout ==> {
            &&& error is None <==> steps.len() == ops.len()
            &&& error is Some ==> !is_performable(
                ops[steps.len() as int].gpu_merge_op,
                atlases,
            ) && is_error_of(error->0, id, ops[steps.len() as int], atlases)
        },
        error is None <==> ops.len() > 0 && atlases.layer_layout == atlases.stroke_layout && (
        forall|k: int|
            0 <= k < ops.len() ==> is_performable((#[trigger] ops[k]).gpu_merge_op, atlases)),
{
    assert forall|k: int| 0 <= k < steps.len() implies performs(
        #[trigger] steps[k],
        ops[k].gpu_merge_op,
        atlases.layer_layout,
    ) && is_performable(ops[k].gpu_merge_op, atlases) by {
        let op = ops[k].gpu_merge_op;
        lemma_corner_tells_the_slot(atlases.layer_layout, op.stroke_tile.tile_index);
        lemma_corner_tells_the_slot(atlases.layer_layout, op.output_tile.tile_index);
        if op.base_tile is Some {
            lemma_corner_tells_the_slot(atlases.layer_layout, op.base_tile->0.tile_index);
        }
    }
    if steps.len() == ops.len() {
        assert forall|k: int| 0 <= k < ops.len() implies is_performable(
            (#[trigger] ops[k]).gpu_merge_op,
            atlases,
        ) by {
            assert(performs(steps[k], ops[k].gpu_merge_op, atlases.layer_layout));
        }
    }
}

} // verus!
