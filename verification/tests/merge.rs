use glaphica::render_protocol::{
    BlendMode, ExecutionStatus, GpuMergeOp, GpuTileRef, MergeAuditMeta, MergeExecutionResult,
    MergePlanMeta, ReceiptTerminalState, RendererSubmissionId, StrokeExecutionReceipt,
    StrokeExecutionReceiptId, SubmissionReport,
};
use glaphica::renderer::merge::{
    CompletionSignal, DeviceLostReason, GpuSubmissionCompletion, MergeAckError,
    MergeCompletionNotice, MergeEnqueueError, MergeFinalizeError, MergeOrchestrator,
    MergePollError, MergeSubmitError,
};
use glaphica::renderer::merge_submission::{
    blend_mode_to_u32, merge_output_copy_extent, tile_ref_slot_origin, validate_tile_ref,
};
use glaphica::scalar::FloatBits;
use glaphica::tiles::{TileAtlasLayout, TILE_STRIDE};

fn receipt(id: u64) -> StrokeExecutionReceipt {
    StrokeExecutionReceipt {
        receipt_id: StrokeExecutionReceiptId(id),
        stroke_session_id: id * 10,
        tx_token: id * 100,
        program_revision: Some(7),
    }
}

fn meta_of(receipt: &StrokeExecutionReceipt) -> MergePlanMeta {
    MergePlanMeta {
        stroke_session_id: receipt.stroke_session_id,
        tx_token: receipt.tx_token,
        program_revision: receipt.program_revision,
    }
}

fn merge_ops() -> Vec<GpuMergeOp> {
    vec![GpuMergeOp {
        base_tile: None,
        stroke_tile: GpuTileRef {
            atlas_layer: 0,
            tile_index: 0,
        },
        output_tile: GpuTileRef {
            atlas_layer: 0,
            tile_index: 1,
        },
        blend_mode: BlendMode::Normal,
        opacity: FloatBits(1.0f32.to_bits()),
        op_trace_id: 1,
    }]
}

fn enqueue(orchestrator: &mut MergeOrchestrator, receipt: &StrokeExecutionReceipt) {
    orchestrator
        .enqueue_planned_merge(receipt.clone(), merge_ops(), meta_of(receipt))
        .expect("enqueue planned merge");
}

fn commit_submission_for_test(
    orchestrator: &mut MergeOrchestrator,
    frame_id: u64,
    budget: u32,
) -> SubmissionReport {
    let prepared = orchestrator
        .prepare_pending_submission(frame_id, budget)
        .expect("prepare pending submission");
    let report = prepared.report.clone();
    orchestrator.commit_submitted_submission(prepared);
    report
}

fn complete_and_collect_single_notice(
    orchestrator: &mut MergeOrchestrator,
) -> MergeCompletionNotice {
    let completed_submissions =
        orchestrator.drain_completed_submissions(&vec![CompletionSignal::Done]);
    let notices = orchestrator
        .collect_completion_notices(completed_submissions)
        .expect("collect completion notices");
    assert_eq!(notices.len(), 1);
    notices[0].clone()
}

#[test]
fn merge_output_copy_extent_must_cover_tile_stride_to_refresh_gutter() {
    let extent = merge_output_copy_extent();
    assert_eq!(
        extent.width, TILE_STRIDE,
        "merge writeback must copy full tile slot width including gutter"
    );
    assert_eq!(
        extent.height, TILE_STRIDE,
        "merge writeback must copy full tile slot height including gutter"
    );
    assert_eq!(extent.depth_or_array_layers, 1);
}

#[test]
fn prepare_submission_is_side_effect_free_until_commit() {
    let mut orchestrator = MergeOrchestrator::default();
    let receipt = receipt(9);
    enqueue(&mut orchestrator, &receipt);

    let prepared = orchestrator
        .prepare_pending_submission(21, 1)
        .expect("prepare pending submission");
    assert_eq!(prepared.report.receipt_ids, vec![receipt.receipt_id]);

    let state = orchestrator
        .receipt_state_label(receipt.receipt_id)
        .expect("receipt must exist");
    assert_eq!(state, "Planned");
    assert_eq!(orchestrator.pending_receipt_count(), 1);
    assert!(!orchestrator.has_submissions());
    assert!(!orchestrator.has_in_flight_submissions());

    orchestrator.commit_submitted_submission(prepared);

    let state = orchestrator
        .receipt_state_label(receipt.receipt_id)
        .expect("receipt must exist");
    assert_eq!(state, "Pending");
    assert_eq!(orchestrator.pending_receipt_count(), 0);
}

#[test]
fn submit_and_ack_success_flow_reaches_finalized() {
    let mut orchestrator = MergeOrchestrator::default();
    let receipt = receipt(1);
    enqueue(&mut orchestrator, &receipt);

    let report = commit_submission_for_test(&mut orchestrator, 10, 1);
    assert_eq!(report.receipt_ids, vec![receipt.receipt_id]);
    report
        .renderer_submission_id
        .expect("submission id must be assigned");

    let progress = orchestrator.drain_receipt_progress_events(10);
    assert_eq!(progress.len(), 1);
    assert!(matches!(progress[0].status, ExecutionStatus::Pending));

    let notice = complete_and_collect_single_notice(&mut orchestrator);

    orchestrator.ack_merge_result(notice).expect("ack success");

    let progress = orchestrator.drain_receipt_progress_events(11);
    assert_eq!(progress.len(), 1);
    assert!(matches!(progress[0].status, ExecutionStatus::Succeeded));
    assert_eq!(
        orchestrator.take_succeeded_receipts(),
        vec![receipt.clone()]
    );

    orchestrator
        .ack_receipt_terminal_state(receipt.receipt_id, ReceiptTerminalState::Finalized)
        .expect("finalize receipt");
    assert!(!orchestrator.has_receipts());
    assert!(!orchestrator.has_submissions());
}

#[test]
fn duplicate_ack_is_rejected() {
    let mut orchestrator = MergeOrchestrator::default();
    let receipt = receipt(2);
    enqueue(&mut orchestrator, &receipt);
    let report = commit_submission_for_test(&mut orchestrator, 12, 1);
    report
        .renderer_submission_id
        .expect("submission id must be assigned");
    let notice = complete_and_collect_single_notice(&mut orchestrator);

    orchestrator
        .ack_merge_result(notice.clone())
        .expect("first ack success");
    let error = orchestrator
        .ack_merge_result(notice)
        .expect_err("duplicate ack must fail fast");
    assert!(matches!(error, MergeAckError::NoticeNotAckable { .. }));
}

#[test]
fn completion_notice_does_not_implicitly_ack_receipt() {
    let mut orchestrator = MergeOrchestrator::default();
    let receipt = receipt(4);
    enqueue(&mut orchestrator, &receipt);
    let report = commit_submission_for_test(&mut orchestrator, 14, 1);
    report
        .renderer_submission_id
        .expect("submission id must be assigned");

    let completed_submissions =
        orchestrator.drain_completed_submissions(&vec![CompletionSignal::Done]);
    let notices = orchestrator
        .collect_completion_notices(completed_submissions)
        .expect("collect completion notices");
    assert_eq!(notices.len(), 1);
    assert_eq!(notices[0].receipt_id, receipt.receipt_id);
    assert!(matches!(notices[0].result, MergeExecutionResult::Succeeded));
    assert_eq!(
        orchestrator.receipt_state_label(receipt.receipt_id),
        Some("Pending")
    );

    orchestrator
        .ack_merge_result(notices[0].clone())
        .expect("manual ack must succeed");
}

#[test]
fn forged_ack_without_polled_notice_is_rejected() {
    let mut orchestrator = MergeOrchestrator::default();
    let receipt = receipt(5);
    enqueue(&mut orchestrator, &receipt);
    let report = commit_submission_for_test(&mut orchestrator, 15, 1);
    let submission_id = report
        .renderer_submission_id
        .expect("submission id must be assigned");

    let error = orchestrator
        .ack_merge_result(MergeCompletionNotice {
            receipt_id: receipt.receipt_id,
            result: MergeExecutionResult::Succeeded,
            audit_meta: MergeAuditMeta {
                frame_id: 15,
                renderer_submission_id: submission_id,
                op_trace_id: None,
            },
        })
        .expect_err("forged ack must fail fast");
    assert!(matches!(error, MergeAckError::NoticeNotAckable { .. }));
}

#[test]
fn terminal_ack_is_rejected_while_submission_in_flight() {
    let mut orchestrator = MergeOrchestrator::default();
    let receipt = receipt(6);
    enqueue(&mut orchestrator, &receipt);
    let _report = commit_submission_for_test(&mut orchestrator, 16, 1);
    let finalize_error = orchestrator
        .ack_receipt_terminal_state(receipt.receipt_id, ReceiptTerminalState::Finalized)
        .expect_err("terminal ack must fail while submission is in flight");
    assert!(matches!(
        finalize_error,
        MergeFinalizeError::SubmissionStillInFlight { .. }
    ));

    let notice = complete_and_collect_single_notice(&mut orchestrator);
    orchestrator
        .ack_merge_result(notice)
        .expect("ack succeeds after completion notice");
    orchestrator
        .ack_receipt_terminal_state(receipt.receipt_id, ReceiptTerminalState::Finalized)
        .expect("finalize succeeds after ack and completion");
}

#[test]
fn failed_receipt_can_abort_and_cannot_finalize() {
    let mut orchestrator = MergeOrchestrator::default();
    let receipt = receipt(3);
    enqueue(&mut orchestrator, &receipt);
    let report = commit_submission_for_test(&mut orchestrator, 13, 1);
    report
        .renderer_submission_id
        .expect("submission id must be assigned");
    let completed_submissions =
        orchestrator.fail_all_in_flight_submissions(GpuSubmissionCompletion::DeviceError {
            message: "gpu merge failed".to_owned(),
        });
    let notices = orchestrator
        .collect_completion_notices(completed_submissions)
        .expect("collect failed completion notices");
    assert_eq!(notices.len(), 1);
    let notice = notices[0].clone();

    orchestrator
        .ack_merge_result(notice)
        .expect("ack failed result");

    let failures = orchestrator.take_failed_receipts();
    assert_eq!(failures.len(), 1);
    assert_eq!(failures[0].receipt.receipt_id, receipt.receipt_id);

    let finalize_error = orchestrator
        .ack_receipt_terminal_state(receipt.receipt_id, ReceiptTerminalState::Finalized)
        .expect_err("failed receipt cannot finalize");
    assert!(matches!(
        finalize_error,
        MergeFinalizeError::IllegalTransition { .. }
    ));

    orchestrator
        .ack_receipt_terminal_state(receipt.receipt_id, ReceiptTerminalState::Aborted)
        .expect("abort failed receipt");
    assert!(!orchestrator.has_receipts());
    assert!(!orchestrator.has_submissions());
}

#[test]
fn planned_merges_are_checked() {
    let mut orchestrator = MergeOrchestrator::default();
    let first = receipt(1);
    assert_eq!(
        orchestrator.enqueue_planned_merge(first.clone(), vec![], meta_of(&first)),
        Err(MergeEnqueueError::EmptyMergeOps {
            receipt_id: first.receipt_id
        })
    );
    let other = MergePlanMeta {
        tx_token: 5,
        ..meta_of(&first)
    };
    assert!(matches!(
        orchestrator.enqueue_planned_merge(first.clone(), merge_ops(), other),
        Err(MergeEnqueueError::ReceiptMetaMismatch { meta_tx_token: 5, .. })
    ));
    enqueue(&mut orchestrator, &first);
    assert_eq!(
        orchestrator.enqueue_planned_merge(first.clone(), merge_ops(), meta_of(&first)),
        Err(MergeEnqueueError::DuplicateReceipt {
            receipt_id: first.receipt_id
        })
    );
}

#[test]
fn submissions_stay_within_the_budget_oldest_first() {
    let mut orchestrator = MergeOrchestrator::default();
    for id in [3, 1, 2] {
        enqueue(&mut orchestrator, &receipt(id));
    }
    assert!(matches!(
        orchestrator.prepare_pending_submission(1, 0),
        Err(MergeSubmitError::ZeroBudget)
    ));
    let report = commit_submission_for_test(&mut orchestrator, 1, 2);
    assert_eq!(
        report.receipt_ids,
        vec![StrokeExecutionReceiptId(3), StrokeExecutionReceiptId(1)]
    );
    assert_eq!(orchestrator.pending_receipt_count(), 1);
    let submission = report.renderer_submission_id.unwrap();
    assert!(orchestrator.is_submission_in_flight(submission));
    assert_eq!(
        orchestrator.receipt_submission_id(StrokeExecutionReceiptId(1)),
        Some(submission)
    );
    assert_eq!(
        orchestrator.submission_receipt_ids(submission),
        Ok(report.receipt_ids)
    );
    let unknown = RendererSubmissionId(99);
    assert_eq!(
        orchestrator.submission_receipt_ids(unknown),
        Err(MergePollError::UnknownSubmission {
            renderer_submission_id: unknown
        })
    );
    let next = commit_submission_for_test(&mut orchestrator, 2, 5);
    assert_ne!(next.renderer_submission_id, Some(submission));
    let taken = next.renderer_submission_id.unwrap();
    assert_eq!(orchestrator.next_submission_id(), taken.0 + 1);
    let none = commit_submission_for_test(&mut orchestrator, 3, 5);
    assert_eq!(none.renderer_submission_id, None);
    assert_eq!(orchestrator.next_submission_id(), taken.0 + 1);
}

#[test]
fn silent_submissions_stay_in_flight_and_lost_ones_fail() {
    let mut orchestrator = MergeOrchestrator::default();
    enqueue(&mut orchestrator, &receipt(1));
    commit_submission_for_test(&mut orchestrator, 1, 1);
    enqueue(&mut orchestrator, &receipt(2));
    commit_submission_for_test(&mut orchestrator, 2, 1);
    let over = orchestrator.drain_completed_submissions(&vec![
        CompletionSignal::NotYet,
        CompletionSignal::Disconnected,
    ]);
    assert_eq!(over.len(), 1);
    assert_eq!(over[0].frame_id, 2);
    assert_eq!(
        over[0].completion,
        GpuSubmissionCompletion::CallbackDisconnected
    );
    assert_eq!(orchestrator.in_flight_submissions().len(), 1);
    let notices = orchestrator.collect_completion_notices(over).unwrap();
    assert!(matches!(
        notices[0].result,
        MergeExecutionResult::Failed { .. }
    ));
    let lost = orchestrator.fail_all_in_flight_submissions(GpuSubmissionCompletion::Lost {
        reason: DeviceLostReason::Destroyed,
        message: "gone".to_owned(),
    });
    assert_eq!(
        lost[0].completion,
        GpuSubmissionCompletion::Lost {
            reason: DeviceLostReason::Destroyed,
            message: "gone".to_owned(),
        }
    );
    let notices = orchestrator.collect_completion_notices(lost).unwrap();
    match &notices[0].result {
        MergeExecutionResult::Failed { message } => assert!(message.contains("gone")),
        other => panic!("unexpected result: {other:?}"),
    }
    let mut altered = notices[0].clone();
    altered.result = MergeExecutionResult::Succeeded;
    assert!(matches!(
        orchestrator.ack_merge_result(altered),
        Err(MergeAckError::NoticeMismatch { .. })
    ));
    assert!(matches!(
        orchestrator.ack_receipt_terminal_state(
            StrokeExecutionReceiptId(77),
            ReceiptTerminalState::Aborted
        ),
        Err(MergeFinalizeError::UnknownReceipt { .. })
    ));
}

#[test]
fn merge_ops_name_slots_of_the_atlas() {
    let layout = TileAtlasLayout {
        tiles_per_row: 4,
        tiles_per_column: 2,
        atlas_width: 4 * TILE_STRIDE,
        atlas_height: 2 * TILE_STRIDE,
    };
    let tile = GpuTileRef {
        atlas_layer: 3,
        tile_index: 6,
    };
    let position = tile_ref_slot_origin(tile, layout);
    assert_eq!((position.origin.x, position.origin.y), (256, 128));
    assert_eq!(position.layer, 3);
    assert_eq!(blend_mode_to_u32(BlendMode::Normal), 0);
    assert_eq!(blend_mode_to_u32(BlendMode::Multiply), 1);
    assert!(validate_tile_ref(tile, layout, 4));
    assert!(!validate_tile_ref(tile, layout, 3));
    assert!(!validate_tile_ref(
        GpuTileRef {
            atlas_layer: 0,
            tile_index: 8
        },
        layout,
        4
    ));
}
