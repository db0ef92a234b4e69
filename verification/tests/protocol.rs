use glaphica::protocol::{
    CompleteWaterline, ExecutedBatchWaterline, GpuFeedbackFrame, MergeItem, PresentFrameId,
    SubmitWaterline,
};

#[derive(Debug, Clone, PartialEq, Eq)]
struct TestReceipt {
    key: u64,
    payload_version: u64,
}

impl MergeItem for TestReceipt {
    type MergeKey = u64;

    fn merge_key(&self) -> Self::MergeKey {
        self.key
    }

    fn merge_duplicate(existing: &mut Self, incoming: Self) {
        if incoming.payload_version > existing.payload_version {
            *existing = incoming;
        }
    }
}

#[derive(Debug, Clone, PartialEq, Eq)]
struct TestError {
    key: u64,
}

impl MergeItem for TestError {
    type MergeKey = u64;

    fn merge_key(&self) -> Self::MergeKey {
        self.key
    }

    fn merge_duplicate(existing: &mut Self, incoming: Self) {
        let _ = incoming;
        let _ = existing;
    }
}

#[test]
fn mailbox_merge_is_idempotent_and_uses_max_waterlines() {
    let current = GpuFeedbackFrame {
        present_frame_id: PresentFrameId(10),
        submit_waterline: SubmitWaterline(2),
        executed_batch_waterline: ExecutedBatchWaterline(3),
        complete_waterline: CompleteWaterline(4),
        receipts: vec![TestReceipt {
            key: 1,
            payload_version: 10,
        }],
        errors: vec![TestError { key: 2 }],
    };
    let newer = GpuFeedbackFrame {
        present_frame_id: PresentFrameId(9),
        submit_waterline: SubmitWaterline(20),
        executed_batch_waterline: ExecutedBatchWaterline(30),
        complete_waterline: CompleteWaterline(40),
        receipts: vec![
            TestReceipt {
                key: 1,
                payload_version: 11,
            },
            TestReceipt {
                key: 3,
                payload_version: 1,
            },
        ],
        errors: vec![TestError { key: 2 }, TestError { key: 4 }],
    };

    let once = GpuFeedbackFrame::merge_mailbox(current, newer.clone());
    let twice = GpuFeedbackFrame::merge_mailbox(once.clone(), newer);
    assert_eq!(once.present_frame_id, PresentFrameId(10));
    assert_eq!(once.submit_waterline, SubmitWaterline(20));
    assert_eq!(once.executed_batch_waterline, ExecutedBatchWaterline(30));
    assert_eq!(once.complete_waterline, CompleteWaterline(40));
    assert_eq!(once.receipts.len(), 2);
    assert_eq!(once.errors.len(), 2);
    assert_eq!(once.receipts[0].payload_version, 11);
    assert_eq!(once, twice);
}

#[test]
fn mailbox_merge_merges_duplicated_incoming_keys_with_item_policy() {
    let current = GpuFeedbackFrame {
        present_frame_id: PresentFrameId(1),
        submit_waterline: SubmitWaterline(1),
        executed_batch_waterline: ExecutedBatchWaterline(1),
        complete_waterline: CompleteWaterline(1),
        receipts: vec![TestReceipt {
            key: 7,
            payload_version: 5,
        }],
        errors: vec![TestError { key: 100 }],
    };
    let newer = GpuFeedbackFrame {
        present_frame_id: PresentFrameId(2),
        submit_waterline: SubmitWaterline(2),
        executed_batch_waterline: ExecutedBatchWaterline(2),
        complete_waterline: CompleteWaterline(2),
        receipts: vec![
            TestReceipt {
                key: 7,
                payload_version: 8,
            },
            TestReceipt {
                key: 7,
                payload_version: 6,
            },
            TestReceipt {
                key: 9,
                payload_version: 1,
            },
        ],
        errors: vec![TestError { key: 200 }],
    };

    let merged = GpuFeedbackFrame::merge_mailbox(current, newer);
    assert_eq!(merged.receipts.len(), 2);
    assert_eq!(merged.receipts[0].key, 7);
    assert_eq!(merged.receipts[0].payload_version, 8);
    assert_eq!(merged.receipts[1].key, 9);
    assert_eq!(merged.receipts[1].payload_version, 1);
}

#[test]
fn mailbox_merge_keeps_items_that_only_one_side_has() {
    let frame = |id: u64, keys: &[u64]| GpuFeedbackFrame {
        present_frame_id: PresentFrameId(id),
        submit_waterline: SubmitWaterline(0),
        executed_batch_waterline: ExecutedBatchWaterline(0),
        complete_waterline: CompleteWaterline(0),
        receipts: keys
            .iter()
            .map(|key| TestReceipt {
                key: *key,
                payload_version: id,
            })
            .collect(),
        errors: keys.iter().map(|key| TestError { key: *key }).collect(),
    };
    let merged = GpuFeedbackFrame::merge_mailbox(frame(1, &[4, 2]), frame(2, &[9, 2]));
    let keys: Vec<u64> = merged.receipts.iter().map(|receipt| receipt.key).collect();
    assert_eq!(keys, vec![4, 2, 9]);
    assert_eq!(merged.errors.len(), 3);
    let nothing = GpuFeedbackFrame::merge_mailbox(frame(3, &[]), frame(2, &[]));
    assert_eq!(nothing.present_frame_id, PresentFrameId(3));
    assert!(nothing.receipts.is_empty() && nothing.errors.is_empty());
}
