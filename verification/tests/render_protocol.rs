use std::sync::Arc;

use glaphica::render_protocol::{
    BlendMode, BlendModePipelineStrategy, BrushCommandBatch, BrushCommandBatchBuildError,
    BrushDabChunkBuildError, BrushDabChunkF32, GroupPassStrategy, ImageHandle,
    RenderNodeSnapshot, RenderStepSupportMatrix, RenderStepUnsupportedReason,
    RenderTreeSnapshot, BRUSH_COMMAND_BATCH_CAPACITY, BRUSH_DAB_CHUNK_CAPACITY,
};
use glaphica::scalar::FloatBits;

fn column(values: &[f32]) -> Vec<FloatBits> {
    values
        .iter()
        .map(|value| FloatBits(value.to_bits()))
        .collect()
}

fn snapshot(root: RenderNodeSnapshot) -> RenderTreeSnapshot {
    RenderTreeSnapshot {
        revision: 7,
        root: Arc::new(root),
    }
}

#[test]
fn current_matrix_accepts_multiply_leaf() {
    let root = RenderNodeSnapshot::Leaf {
        layer_id: 11,
        blend: BlendMode::Multiply,
        image_handle: ImageHandle::default(),
    };
    let snapshot = snapshot(root);

    snapshot
        .validate_executable(&RenderStepSupportMatrix::current_executable_semantics())
        .expect("multiply should be supported by current executable semantics");
}

#[test]
fn current_matrix_accepts_group_boundaries() {
    let root = RenderNodeSnapshot::Group {
        group_id: 0,
        blend: BlendMode::Normal,
        children: Arc::new(vec![RenderNodeSnapshot::Leaf {
            layer_id: 5,
            blend: BlendMode::Normal,
            image_handle: ImageHandle::default(),
        }]),
    };
    let snapshot = snapshot(root);

    snapshot
        .validate_executable(&RenderStepSupportMatrix::current_executable_semantics())
        .expect("group boundary should be valid as isolated compositing in current semantics");
}

#[test]
fn group_blend_reports_unsupported_mode() {
    let root = RenderNodeSnapshot::Group {
        group_id: 7,
        blend: BlendMode::Multiply,
        children: Arc::new(Vec::<RenderNodeSnapshot>::new()),
    };
    let snapshot = snapshot(root);

    let support = RenderStepSupportMatrix {
        normal_blend_strategy: BlendModePipelineStrategy::SurfaceAlphaBlend,
        multiply_blend_strategy: BlendModePipelineStrategy::Unsupported,
        group_strategy: GroupPassStrategy::IsolatedOffscreenComposite,
    };

    let error = snapshot
        .validate_executable(&support)
        .expect_err("group multiply blend should be rejected when unsupported");
    assert_eq!(error.step_index, 0);
    assert_eq!(
        error.reason,
        RenderStepUnsupportedReason::BlendModeUnsupported {
            blend_mode: BlendMode::Multiply,
        }
    );
}

#[test]
fn brush_batch_from_slices_preserves_lengths() {
    let batch = BrushCommandBatch::from_slices(
        9,
        100,
        false,
        &column(&[1.0, 2.0, 3.0]),
        &column(&[4.0, 5.0, 6.0]),
        &column(&[0.5, 0.6, 0.7]),
    )
    .expect("build brush command batch");

    assert_eq!(batch.command_count(), 3);
    assert_eq!(batch.canvas_x(), &column(&[1.0, 2.0, 3.0]));
    assert_eq!(batch.canvas_y(), &column(&[4.0, 5.0, 6.0]));
    assert_eq!(batch.pressure(), &column(&[0.5, 0.6, 0.7]));
}

#[test]
fn brush_batch_rejects_mismatched_lengths() {
    let error = BrushCommandBatch::from_slices(
        1,
        2,
        false,
        &column(&[1.0, 2.0]),
        &column(&[3.0]),
        &column(&[0.5, 0.6]),
    )
    .expect_err("batch should reject mismatched field lengths");
    assert_eq!(error, BrushCommandBatchBuildError::MismatchedFieldLengths);
}

#[test]
fn dab_chunk_from_slices_preserves_lengths() {
    let chunk = BrushDabChunkF32::from_slices(
        99,
        &column(&[1.0, 2.0]),
        &column(&[3.0, 4.0]),
        &column(&[0.6, 0.7]),
    )
    .expect("build brush dab chunk");

    assert_eq!(chunk.stroke_session_id, 99);
    assert_eq!(chunk.dab_count(), 2);
    assert_eq!(chunk.canvas_x(), &column(&[1.0, 2.0]));
    assert_eq!(chunk.canvas_y(), &column(&[3.0, 4.0]));
    assert_eq!(chunk.pressure(), &column(&[0.6, 0.7]));
}

#[test]
fn dab_chunk_rejects_mismatched_lengths() {
    let error = BrushDabChunkF32::from_slices(
        4,
        &column(&[1.0]),
        &column(&[2.0, 3.0]),
        &column(&[0.4]),
    )
    .expect_err("dab chunk should reject mismatched field lengths");
    assert_eq!(error, BrushDabChunkBuildError::MismatchedFieldLengths);
}

#[test]
fn batches_and_chunks_have_a_capacity() {
    let long = vec![FloatBits(0); BRUSH_COMMAND_BATCH_CAPACITY + 1];
    assert_eq!(
        BrushCommandBatch::from_slices(1, 2, true, &long, &long, &long),
        Err(BrushCommandBatchBuildError::TooManyCommands)
    );
    let full = &long[1..];
    assert_eq!(
        BrushCommandBatch::from_slices(1, 2, true, full, full, full)
            .map(|batch| batch.command_count()),
        Ok(BRUSH_COMMAND_BATCH_CAPACITY)
    );
    let long = vec![FloatBits(0); BRUSH_DAB_CHUNK_CAPACITY + 1];
    assert_eq!(
        BrushDabChunkF32::from_slices(1, &long, &long, &long).map(|chunk| chunk.dab_count()),
        Err(BrushDabChunkBuildError::TooManyDabs)
    );
}

#[test]
fn validation_names_the_first_step_that_cannot_be_executed() {
    let leaf = |layer_id: u64, blend: BlendMode| RenderNodeSnapshot::Leaf {
        layer_id,
        blend,
        image_handle: ImageHandle::default(),
    };
    let tree = snapshot(RenderNodeSnapshot::Group {
        group_id: 0,
        blend: BlendMode::Normal,
        children: Arc::new(vec![
            leaf(1, BlendMode::Normal),
            leaf(2, BlendMode::Multiply),
            leaf(3, BlendMode::Multiply),
        ]),
    });
    let no_multiply = RenderStepSupportMatrix {
        multiply_blend_strategy: BlendModePipelineStrategy::Unsupported,
        ..RenderStepSupportMatrix::current_executable_semantics()
    };
    let error = tree.validate_executable(&no_multiply).unwrap_err();
    assert_eq!(
        error.reason,
        RenderStepUnsupportedReason::BlendModeUnsupported {
            blend_mode: BlendMode::Multiply
        }
    );
    let no_groups = RenderStepSupportMatrix {
        group_strategy: GroupPassStrategy::Unsupported,
        ..RenderStepSupportMatrix::current_executable_semantics()
    };
    let refused = tree.validate_executable(&no_groups).unwrap_err();
    assert!(refused.step_index > error.step_index || refused.step_index == 0);
}

#[test]
fn image_handles_travel_as_numbers() {
    let null = ImageHandle::default();
    assert_eq!(ImageHandle::from_ffi(null.as_ffi()), null);
    let handle = ImageHandle::from_ffi(0x0000_0003_0000_0007);
    assert_eq!(handle.as_ffi(), 0x0000_0003_0000_0007);
    assert_ne!(handle, null);
    // A key's version is always odd: the lowest bit of the upper half is set.
    assert_eq!(
        ImageHandle::from_ffi(0x0000_0002_0000_0007).as_ffi(),
        0x0000_0003_0000_0007
    );
}
