//! What each operation of the merge orchestrator does, step by step.
use vstd::prelude::*;

use crate::render_protocol::{
    GpuMergeOp, MergePlanMeta, ReceiptTerminalState, RendererSubmissionId, StrokeExecutionReceipt,
    StrokeExecutionReceiptId,
};
use crate::renderer::merge::{
    Collected, CompletedModel, CompletionModel, CompletionSignal, DevicePoll, InFlightSubmission,
    MergeAckError, MergeEnqueueError, MergeFinalizeError, MergeModel, MergePollError,
    MergeReceiptState, NoticeModel, ReceiptModel, StatusModel, SubmissionGpuOp,
};

verus! {

/// A merge is planned exactly if it has operations, its receipt and its description
/// agree on stroke and transaction, and no merge with its receipt is tracked. It is
/// then last in the queue, with its operations, and all others stay as they are.
pub proof fn lemma_planning_a_merge(
    model: MergeModel,
    receipt: StrokeExecutionReceipt,
    ops: Seq<GpuMergeOp>,
    meta: MergePlanMeta,
    other: StrokeExecutionReceiptId,
)
    requires
        other != receipt.receipt_id,
    ensures
        ({
            let agrees = receipt.stroke_session_id == meta.stroke_session_id && receipt.tx_token
                == meta.tx_token;
            let known = model.receipts.dom().contains(receipt.receipt_id);
            match model.enqueue_error(receipt, ops, meta) {
                None => ops.len() > 0 && agrees && !known,
                Some(MergeEnqueueError::EmptyMergeOps { receipt_id }) => receipt_id
                    == receipt.receipt_id && ops.len() == 0,
                Some(
                    MergeEnqueueError::ReceiptMetaMismatch {
                        receipt_id,
                        receipt_stroke_session_id,
                        meta_stroke_session_id,
                        receipt_tx_token,
                        meta_tx_token,
                    },
                ) => receipt_id == receipt.receipt_id && receipt_stroke_session_id
                    == receipt.stroke_session_id && meta_stroke_session_id
                    == meta.stroke_session_id && receipt_tx_token == receipt.tx_token
                    && meta_tx_token == meta.tx_token && !agrees && ops.len() > 0,
                Some(MergeEnqueueError::DuplicateReceipt { receipt_id }) => receipt_id
                    == receipt.receipt_id && known && agrees && ops.len() > 0,
            }
        }),
        ({
            let after = model.enqueued(receipt, ops);
            let id = receipt.receipt_id;
            &&& after.receipts.dom().contains(id)
            &&& after.receipts[id].receipt == receipt
            &&& after.receipts[id].ops == ops
            &&& after.receipts[id].state is Planned
            &&& after.receipts.dom().contains(other) == model.receipts.dom().contains(other)
            &&& after.receipts[other] == model.receipts[other]
            &&& after.pending.drop_last() == model.pending
            &&& after.pending.len() == model.pending.len() + 1
            &&& after.pending.last() == id
            &&& after.next_submission_id == model.next_submission_id
            &&& after.submissions == model.submissions
            &&& after.in_flight == model.in_flight
            &&& after.ackable == model.ackable
            &&& after.progress == model.progress
            &&& after.succeeded == model.succeeded
            &&& after.failed == model.failed
        }),
{
    assert(model.enqueued(receipt, ops).pending.drop_last() =~= model.pending);
}

/// A submission takes receipts from the head of the queue, in order: as many as it
/// may, or all.
pub proof fn lemma_batch_is_the_head_of_the_queue(model: MergeModel, budget: u32)
    ensures
        model.batch(budget).len() == vstd::math::min(budget as int, model.pending.len() as int),
        forall|i: int|
            0 <= i < model.batch(budget).len() ==> #[trigger] model.batch(budget)[i]
                == model.pending[i],
{
}

/// The operations of a submission are those of its receipts, one receipt after the
/// other, each operation with its receipt: those of one receipt are its own, in order,
/// and those of more receipts follow.
pub proof fn lemma_operations_of_a_batch(
    receipts: Map<StrokeExecutionReceiptId, ReceiptModel>,
    first: Seq<StrokeExecutionReceiptId>,
    more: Seq<StrokeExecutionReceiptId>,
)
    ensures
        crate::renderer::merge::batch_ops(receipts, first + more)
            == crate::renderer::merge::batch_ops(receipts, first)
            + crate::renderer::merge::batch_ops(receipts, more),
        first.len() == 0 ==> crate::renderer::merge::batch_ops(receipts, first).len() == 0,
        first.len() == 1 ==> {
            let ops = crate::renderer::merge::batch_ops(receipts, first);
            &&& ops.len() == receipts[first[0]].ops.len()
            &&& forall|k: int|
                0 <= k < ops.len() ==> (#[trigger] ops[k]).receipt_id == first[0]
                    && ops[k].gpu_merge_op == receipts[first[0]].ops[k]
        },
    decreases more.len(),
{
    let all = crate::renderer::merge::batch_ops(receipts, first + more);
    if more.len() == 0 {
        assert(first + more =~= first);
        assert(crate::renderer::merge::batch_ops(receipts, more) =~= Seq::<SubmissionGpuOp>::empty());
        assert(all =~= crate::renderer::merge::batch_ops(receipts, first)
            + crate::renderer::merge::batch_ops(receipts, more));
    } else {
        assert((first + more).drop_last() =~= first + more.drop_last());
        lemma_operations_of_a_batch(receipts, first, more.drop_last());
        assert(all =~= crate::renderer::merge::batch_ops(receipts, first)
            + crate::renderer::merge::batch_ops(receipts, more));
    }
    if first.len() == 1 {
        assert(crate::renderer::merge::batch_ops(receipts, first.drop_last())
            =~= Seq::<SubmissionGpuOp>::empty());
    }
}

/// Handing a submission to the device has its receipts leave the queue, pending on the
/// submission and otherwise as they were, each reported as pending, in order; the
/// submission is the last in flight. Nothing else changes.
pub proof fn lemma_committing_a_submission(
    model: MergeModel,
    id: RendererSubmissionId,
    frame_id: u64,
    receipt_ids: Seq<StrokeExecutionReceiptId>,
    receipt: StrokeExecutionReceiptId,
    other: RendererSubmissionId,
)
    requires
        receipt_ids.len() <= model.pending.len(),
        other != id,
    ensures
        ({
            let after = model.committed(id, frame_id, receipt_ids);
            &&& after.receipts.dom().contains(receipt) == model.receipts.dom().contains(receipt)
            &&& model.receipts.dom().contains(receipt) ==> {
                &&& after.receipts[receipt].receipt == model.receipts[receipt].receipt
                &&& after.receipts[receipt].ops == model.receipts[receipt].ops
                &&& receipt_ids.contains(receipt) ==> after.receipts[receipt].state == (
                MergeReceiptState::Pending { renderer_submission_id: id, frame_id })
                &&& !receipt_ids.contains(receipt) ==> after.receipts[receipt].state
                    == model.receipts[receipt].state
            }
            &&& after.pending.len() == model.pending.len() - receipt_ids.len()
            &&& forall|i: int|
                0 <= i < after.pending.len() ==> #[trigger] after.pending[i] == model.pending[i
                    + receipt_ids.len()]
            &&& after.submissions.dom().contains(id)
            &&& after.submissions[id].frame_id == frame_id
            &&& after.submissions[id].receipt_ids == receipt_ids
            &&& after.submissions.dom().contains(other) == model.submissions.dom().contains(other)
            &&& after.submissions[other] == model.submissions[other]
            &&& after.in_flight.len() == model.in_flight.len() + 1
            &&& after.in_flight.drop_last() == model.in_flight
            &&& after.in_flight.last().renderer_submission_id == id
            &&& after.in_flight.last().frame_id == frame_id
            &&& after.progress.len() == model.progress.len() + receipt_ids.len()
            &&& forall|i: int|
                0 <= i < model.progress.len() ==> #[trigger] after.progress[i] == model.progress[i]
            &&& forall|i: int|
                0 <= i < receipt_ids.len() ==> after.progress[model.progress.len() + i].receipt
                    == model.receipts[#[trigger] receipt_ids[i]].receipt
                    && after.progress[model.progress.len() + i].status is Pending
            &&& after.next_submission_id == model.next_submission_id
            &&& after.ackable == model.ackable
            &&& after.succeeded == model.succeeded
            &&& after.failed == model.failed
        }),
{
    let after = model.committed(id, frame_id, receipt_ids);
    assert(after.in_flight.drop_last() =~= model.in_flight);
}

/// The places in flight whose callback has signalled an end, or those that it has not,
/// in order.
pub open spec fn places_heard(signals: Seq<CompletionSignal>, count: int, heard: bool) -> Seq<int>
    decreases count,
{
    if count <= 0 {
        Seq::empty()
    } else if (signals[count - 1] is NotYet) != heard {
        places_heard(signals, count - 1, heard).push(count - 1)
    } else {
        places_heard(signals, count - 1, heard)
    }
}

/// Every place is among those that were heard of or among the others, not both.
pub proof fn lemma_places_heard(signals: Seq<CompletionSignal>, count: int, heard: bool)
    ensures
        forall|r: int|
            0 <= r < places_heard(signals, count, heard).len() ==> 0 <= #[trigger] places_heard(
                signals,
                count,
                heard,
            )[r] < count && (signals[places_heard(signals, count, heard)[r]] is NotYet) != heard,
        forall|i: int|
            0 <= i < count && ((#[trigger] signals[i]) is NotYet) != heard ==> places_heard(
                signals,
                count,
                heard,
            ).contains(i),
    decreases count,
{
    if count > 0 {
        let fewer = places_heard(signals, count - 1, heard);
        let all = places_heard(signals, count, heard);
        lemma_places_heard(signals, count - 1, heard);
        assert forall|r: int| 0 <= r < all.len() implies 0 <= #[trigger] all[r] < count && (
        signals[all[r]] is NotYet) != heard by {
            if r < fewer.len() {
                assert(all[r] == fewer[r]);
            }
        }
        assert forall|i: int|
            0 <= i < count && ((#[trigger] signals[i]) is NotYet) != heard implies all.contains(
            i,
        ) by {
            if i < count - 1 {
                assert(fewer.contains(i));
                assert(all[fewer.index_of(i)] == i);
            } else {
                assert(all[all.len() - 1] == i);
            }
        }
    }
}

/// The submissions whose callback has signalled are over, in order: completed, or cut
/// off if the callback is gone. The others stay in flight, in order.
pub proof fn lemma_signals_end_their_submissions(
    in_flight: Seq<InFlightSubmission>,
    signals: Seq<CompletionSignal>,
)
    ensures
        ({
            let over = crate::renderer::merge::signalled(in_flight, signals);
            let heard = places_heard(signals, in_flight.len() as int, true);
            &&& over.len() == heard.len()
            &&& forall|r: int|
                0 <= r < heard.len() ==> {
                    &&& over[r].renderer_submission_id
                        == in_flight[#[trigger] heard[r]].renderer_submission_id
                    &&& over[r].frame_id == in_flight[heard[r]].frame_id
                    &&& over[r].completion is Completed <==> signals[heard[r]] is Done
                    &&& over[r].completion is CallbackDisconnected <==> signals[heard[r]]
                        is Disconnected
                }
        }),
        ({
            let flying = crate::renderer::merge::unsignalled(in_flight, signals);
            let silent = places_heard(signals, in_flight.len() as int, false);
            &&& flying.len() == silent.len()
            &&& forall|r: int|
                0 <= r < silent.len() ==> flying[r] == in_flight[#[trigger] silent[r]]
        }),
    decreases in_flight.len(),
{
    if in_flight.len() > 0 {
        let shorter = in_flight.drop_last();
        let count = in_flight.len() as int;
        lemma_signals_end_their_submissions(shorter, signals);
        lemma_places_heard(signals, count - 1, true);
        lemma_places_heard(signals, count - 1, false);
        let over = crate::renderer::merge::signalled(in_flight, signals);
        let heard = places_heard(signals, count, true);
        let fewer = places_heard(signals, count - 1, true);
        assert forall|r: int| 0 <= r < heard.len() implies over[r].renderer_submission_id
            == in_flight[#[trigger] heard[r]].renderer_submission_id && over[r].frame_id
            == in_flight[heard[r]].frame_id && (over[r].completion is Completed
            <==> signals[heard[r]] is Done) && (over[r].completion is CallbackDisconnected
            <==> signals[heard[r]] is Disconnected) by {
            if r < fewer.len() {
                assert(heard[r] == fewer[r]);
                assert(shorter[fewer[r]] == in_flight[fewer[r]]);
                assert(over[r] == crate::renderer::merge::signalled(shorter, signals)[r]);
            }
        }
        let flying = crate::renderer::merge::unsignalled(in_flight, signals);
        let silent = places_heard(signals, count, false);
        let less = places_heard(signals, count - 1, false);
        assert forall|r: int| 0 <= r < silent.len() implies flying[r] == in_flight[
        #[trigger] silent[r]] by {
            if r < less.len() {
                assert(silent[r] == less[r]);
                assert(shorter[less[r]] == in_flight[less[r]]);
                assert(flying[r] == crate::renderer::merge::unsignalled(shorter, signals)[r]);
            }
        }
    }
}

/// The text ends with the other one.
pub open spec fn ends_with(text: Seq<char>, end: Seq<char>) -> bool {
    text.len() >= end.len() && text.skip(text.len() - end.len()) == end
}

/// A poll that failed ends all submissions in flight with an error that gives its
/// message; so does, without that, a lost device with its first loss; and, without
/// either, an error that was not caught. Otherwise the signals decide.
pub proof fn lemma_failed_poll_ends_all(model: MergeModel, frame_id: u64, poll: DevicePoll)
    ensures
        ({
            let over = model.polled(frame_id, poll);
            let fails = poll.poll_error is Some || poll.device_lost@.len() > 0
                || poll.uncaptured_errors@.len() > 0;
            &&& fails ==> {
                &&& model.still_flying(frame_id, poll).len() == 0
                &&& over.len() == model.in_flight.len()
                &&& forall|i: int|
                    0 <= i < over.len() ==> {
                        &&& (#[trigger] over[i]).renderer_submission_id
                            == model.in_flight[i].renderer_submission_id
                        &&& over[i].frame_id == model.in_flight[i].frame_id
                        &&& over[i].completion.outcome() is Some
                        &&& poll.poll_error is Some ==> ends_with(
                            over[i].completion.outcome()->0,
                            poll.poll_error->0@,
                        ) && over[i].completion is DeviceError
                        &&& poll.poll_error is None && poll.device_lost@.len() > 0 ==> (
                        over[i].completion matches CompletionModel::Lost { reason, message }
                            && reason == poll.device_lost@[0].reason && message
                            == poll.device_lost@[0].message@) && ends_with(
                            over[i].completion.outcome()->0,
                            poll.device_lost@[0].message@,
                        )
                        &&& poll.poll_error is None && poll.device_lost@.len() == 0
                            ==> over[i].completion is DeviceError && ends_with(
                            over[i].completion.outcome()->0,
                            crate::text::joined_text(
                                crate::text::texts(poll.uncaptured_errors@),
                                " | "@,
                            ),
                        )
                    }
            }
            &&& !fails ==> over == crate::renderer::merge::signalled(
                model.in_flight,
                poll.signals@,
            ) && model.still_flying(frame_id, poll) == crate::renderer::merge::unsignalled(
                model.in_flight,
                poll.signals@,
            )
        }),
{
    let over = model.polled(frame_id, poll);
    if poll.poll_error is Some {
        let message = poll.failure(frame_id)->0->DeviceError_message;
        assert(message.skip(message.len() - poll.poll_error->0@.len()) =~= poll.poll_error->0@);
    } else if poll.device_lost@.len() > 0 {
        let lost = poll.device_lost@[0];
        let text = "gpu device lost ("@ + lost.reason.name()@ + "): "@ + lost.message@;
        assert(text.skip(text.len() - lost.message@.len()) =~= lost.message@);
    } else if poll.uncaptured_errors@.len() > 0 {
        let message = poll.failure(frame_id)->0->DeviceError_message;
        let errors = crate::text::joined_text(
            crate::text::texts(poll.uncaptured_errors@),
            " | "@,
        );
        assert(message.skip(message.len() - errors.len()) =~= errors);
    }
}

/// A completed submission is told to its receipts as a success; any other end as a
/// failure with a message, which is the device's own where it gave one.
pub proof fn lemma_receipts_are_told_the_end(completion: CompletionModel)
    ensures
        completion is Completed <==> completion.outcome() is None,
        completion matches CompletionModel::DeviceError { message } ==> completion.outcome()
            == Some(message),
        completion matches CompletionModel::Lost { message, .. } ==> ends_with(
            completion.outcome()->0,
            message,
        ),
{
    if let CompletionModel::Lost { reason, message } = completion {
        let text = "gpu device lost ("@ + reason.name()@ + "): "@ + message;
        assert(text.skip(text.len() - message.len()) =~= message);
    }
}

/// The notice tells the receipt the end of its submission.
pub open spec fn tells(
    notice: NoticeModel,
    completed: CompletedModel,
    receipt_id: StrokeExecutionReceiptId,
) -> bool {
    &&& notice.receipt_id == receipt_id
    &&& notice.audit_meta.frame_id == completed.frame_id
    &&& notice.audit_meta.renderer_submission_id == completed.renderer_submission_id
    &&& notice.audit_meta.op_trace_id is None
    &&& notice.outcome == completed.completion.outcome()
}

proof fn lemma_receipts_are_notified(
    before: Collected,
    completed: CompletedModel,
    receipt_ids: Seq<StrokeExecutionReceiptId>,
)
    requires
        before.error is None,
    ensures
        ({
            let after = before.register_all(completed, receipt_ids);
            after.error is None ==> {
                &&& after.notices.len() == before.notices.len() + receipt_ids.len()
                &&& forall|i: int|
                    0 <= i < before.notices.len() ==> #[trigger] after.notices[i]
                        == before.notices[i]
                &&& forall|i: int|
                    0 <= i < receipt_ids.len() ==> tells(
                        after.notices[before.notices.len() + i],
                        completed,
                        #[trigger] receipt_ids[i],
                    ) && after.ackable.dom().contains(receipt_ids[i])
                        && after.ackable[receipt_ids[i]] == after.notices[before.notices.len()
                        + i]
                &&& forall|r: StrokeExecutionReceiptId| #[trigger]
                    after.ackable.dom().contains(r) <==> before.ackable.dom().contains(r)
                        || receipt_ids.contains(r)
                &&& forall|r: StrokeExecutionReceiptId| #[trigger]
                    before.ackable.dom().contains(r) ==> after.ackable[r] == before.ackable[r]
                        && !receipt_ids.contains(r)
            }
        }),
    decreases receipt_ids.len(),
{
    if receipt_ids.len() > 0 {
        let shorter = receipt_ids.drop_last();
        let last = receipt_ids.len() - 1;
        lemma_receipts_are_notified(before, completed, shorter);
        let middle = before.register_all(completed, shorter);
        let after = before.register_all(completed, receipt_ids);
        if after.error is None {
            assert(middle.error is None);
            assert(receipt_ids[last] == receipt_ids.last());
            assert forall|i: int| 0 <= i < receipt_ids.len() implies tells(
                after.notices[before.notices.len() + i],
                completed,
                #[trigger] receipt_ids[i],
            ) && after.ackable.dom().contains(receipt_ids[i]) && after.ackable[receipt_ids[i]]
                == after.notices[before.notices.len() + i] by {
                if i < last {
                    assert(shorter[i] == receipt_ids[i]);
                    assert(middle.ackable.dom().contains(shorter[i]));
                }
            }
            assert forall|r: StrokeExecutionReceiptId|
                receipt_ids.contains(r) <==> shorter.contains(r) || r == receipt_ids.last() by {
                if receipt_ids.contains(r) && r != receipt_ids.last() {
                    let i = receipt_ids.index_of(r);
                    assert(shorter[i] == r);
                }
                if shorter.contains(r) {
                    let i = shorter.index_of(r);
                    assert(receipt_ids[i] == r);
                }
            }
        }
    }
}

/// One more submission that is over gives one notice for each of its receipts, in
/// order, after those of the submissions before it, and each can be acknowledged then.
/// This fails if the submission is not known, or if a receipt has a notice already.
pub proof fn lemma_completed_submission_is_noticed(
    model: MergeModel,
    earlier: Seq<CompletedModel>,
    completed: CompletedModel,
)
    requires
        model.collect(earlier).error is None,
    ensures
        ({
            let before = model.collect(earlier);
            let after = model.collect(earlier.push(completed));
            let id = completed.renderer_submission_id;
            let receipt_ids = model.submissions[id].receipt_ids;
            if !model.submissions.dom().contains(id) {
                after.error == Some(
                    MergePollError::UnknownSubmission { renderer_submission_id: id },
                )
            } else if after.error is None {
                &&& after.notices.len() == before.notices.len() + receipt_ids.len()
                &&& forall|i: int|
                    0 <= i < before.notices.len() ==> #[trigger] after.notices[i]
                        == before.notices[i]
                &&& forall|i: int|
                    0 <= i < receipt_ids.len() ==> tells(
                        after.notices[before.notices.len() + i],
                        completed,
                        #[trigger] receipt_ids[i],
                    ) && after.ackable.dom().contains(receipt_ids[i])
                        && after.ackable[receipt_ids[i]] == after.notices[before.notices.len()
                        + i]
                &&& forall|r: StrokeExecutionReceiptId| #[trigger]
                    after.ackable.dom().contains(r) <==> before.ackable.dom().contains(r)
                        || receipt_ids.contains(r)
                &&& forall|r: StrokeExecutionReceiptId| #[trigger]
                    before.ackable.dom().contains(r) ==> after.ackable[r] == before.ackable[r]
                        && !receipt_ids.contains(r)
            } else {
                after.error matches Some(MergePollError::DuplicateAckableNotice { receipt_id })
                    && receipt_ids.contains(receipt_id)
            }
        }),
        earlier.len() == 0 ==> model.collect(earlier).notices.len() == 0 && model.collect(
            earlier,
        ).ackable == model.ackable,
{
    let id = completed.renderer_submission_id;
    assert(earlier.push(completed).drop_last() =~= earlier);
    if model.submissions.dom().contains(id) {
        lemma_receipts_are_notified(
            model.collect(earlier),
            completed,
            model.submissions[id].receipt_ids,
        );
        lemma_duplicate_notice(
            model.collect(earlier),
            completed,
            model.submissions[id].receipt_ids,
        );
    }
}

proof fn lemma_duplicate_notice(
    before: Collected,
    completed: CompletedModel,
    receipt_ids: Seq<StrokeExecutionReceiptId>,
)
    requires
        before.error is None,
    ensures
        before.register_all(completed, receipt_ids).error matches Some(error) ==> (
        error matches MergePollError::DuplicateAckableNotice { receipt_id }
            && receipt_ids.contains(receipt_id)),
    decreases receipt_ids.len(),
{
    if receipt_ids.len() > 0 {
        let shorter = receipt_ids.drop_last();
        lemma_duplicate_notice(before, completed, shorter);
        assert(receipt_ids[receipt_ids.len() - 1] == receipt_ids.last());
        if let Some(error) = before.register_all(completed, shorter).error {
            let receipt_id = error->DuplicateAckableNotice_receipt_id;
            assert(receipt_ids[shorter.index_of(receipt_id)] == receipt_id);
        }
    }
}

/// A notice can be acknowledged exactly if it is the one that the receipt was told, by
/// a submission that carries the receipt and that the receipt is pending on.
pub proof fn lemma_acknowledging_needs_the_notice(model: MergeModel, notice: NoticeModel)
    ensures
        ({
            let receipt = notice.receipt_id;
            let id = notice.audit_meta.renderer_submission_id;
            let told = model.ackable.dom().contains(receipt);
            let same = model.ackable[receipt] == notice;
            let known = model.submissions.dom().contains(id);
            let carried = model.submissions[id].receipt_ids.contains(receipt);
            let present = model.receipts.dom().contains(receipt);
            let state = model.receipts[receipt].state;
            let pending = match state {
                MergeReceiptState::Submitted { renderer_submission_id, .. } => Some(
                    renderer_submission_id,
                ),
                MergeReceiptState::Pending { renderer_submission_id, .. } => Some(
                    renderer_submission_id,
                ),
                _ => None,
            };
            match model.ack_error(notice) {
                None => told && same && known && carried && present && pending == Some(id),
                Some(MergeAckError::NoticeNotAckable { receipt_id }) => receipt_id == receipt
                    && !told,
                Some(MergeAckError::NoticeMismatch { receipt_id }) => receipt_id == receipt && told
                    && !same,
                Some(
                    MergeAckError::UnknownSubmission { receipt_id, renderer_submission_id },
                ) => receipt_id == receipt && renderer_submission_id == id && same && !known,
                Some(
                    MergeAckError::ReceiptNotInSubmission { receipt_id, renderer_submission_id },
                ) => receipt_id == receipt && renderer_submission_id == id && same && known
                    && !carried,
                Some(MergeAckError::UnknownReceipt { receipt_id }) => receipt_id == receipt
                    && !present,
                Some(MergeAckError::IllegalState { receipt_id, .. }) => receipt_id == receipt
                    && present && pending is None,
                Some(
                    MergeAckError::ReceiptSubmissionMismatch {
                        receipt_id,
                        expected_submission_id,
                        received_submission_id,
                    },
                ) => receipt_id == receipt && pending == Some(expected_submission_id)
                    && received_submission_id == id && pending != Some(id),
            }
        }),
{
}

/// Acknowledging a notice uses it up and ends its receipt as the notice says: a success
/// is reported with the receipt, and a failure with the receipt and the notice's
/// message, frame and submission. Nothing else changes.
pub proof fn lemma_acknowledging_a_notice(
    model: MergeModel,
    notice: NoticeModel,
    other: StrokeExecutionReceiptId,
)
    requires
        other != notice.receipt_id,
    ensures
        ({
            let after = model.acked(notice);
            let id = notice.receipt_id;
            let entry = model.receipts[id];
            &&& !after.ackable.dom().contains(id)
            &&& after.ackable.dom().contains(other) == model.ackable.dom().contains(other)
            &&& after.ackable[other] == model.ackable[other]
            &&& after.receipts.dom().contains(id)
            &&& after.receipts[id].receipt == entry.receipt
            &&& after.receipts[id].ops == entry.ops
            &&& after.receipts.dom().contains(other) == model.receipts.dom().contains(other)
            &&& after.receipts[other] == model.receipts[other]
            &&& after.progress.len() == model.progress.len() + 1
            &&& after.progress.drop_last() == model.progress
            &&& after.progress.last().receipt == entry.receipt
            &&& match notice.outcome {
                None => {
                    &&& after.receipts[id].state is Succeeded
                    &&& after.progress.last().status is Succeeded
                    &&& after.succeeded == model.succeeded.push(entry.receipt)
                    &&& after.failed == model.failed
                },
                Some(message) => {
                    &&& after.receipts[id].state is Failed
                    &&& after.succeeded == model.succeeded
                    &&& after.failed.len() == model.failed.len() + 1
                    &&& after.failed.drop_last() == model.failed
                    &&& after.failed.last().receipt == entry.receipt
                    &&& after.progress.last().status == StatusModel::Failed(
                        after.failed.last().error_ctx,
                    )
                    &&& ({
                        let context = after.failed.last().error_ctx;
                        &&& context.receipt_id == id
                        &&& context.stroke_session_id == entry.receipt.stroke_session_id
                        &&& context.tx_token == entry.receipt.tx_token
                        &&& context.frame_id == notice.audit_meta.frame_id
                        &&& context.renderer_submission_id
                            == notice.audit_meta.renderer_submission_id
                        &&& context.op_stage is Merge
                        &&& context.message == message
                    })
                },
            }
            &&& after.next_submission_id == model.next_submission_id
            &&& after.pending == model.pending
            &&& after.submissions == model.submissions
            &&& after.in_flight == model.in_flight
        }),
{
    let after = model.acked(notice);
    assert(after.progress.drop_last() =~= model.progress);
    if notice.outcome is Some {
        assert(after.failed.drop_last() =~= model.failed);
    }
}

/// Bringing a receipt to its end takes it away, and its submission with it once none of
/// the receipts that it carries is tracked. Nothing else changes.
pub proof fn lemma_ending_a_receipt(
    model: MergeModel,
    receipt_id: StrokeExecutionReceiptId,
    other: StrokeExecutionReceiptId,
    submission: RendererSubmissionId,
)
    requires
        other != receipt_id,
    ensures
        ({
            let after = model.finalized(receipt_id);
            &&& !after.receipts.dom().contains(receipt_id)
            &&& after.receipts.dom().contains(other) == model.receipts.dom().contains(other)
            &&& after.receipts[other] == model.receipts[other]
            &&& after.submissions.dom().contains(submission) ==> model.submissions.dom().contains(
                submission,
            ) && after.submissions[submission] == model.submissions[submission]
            &&& model.submissions.dom().contains(submission) && !after.submissions.dom().contains(
                submission,
            ) ==> forall|r: StrokeExecutionReceiptId| #[trigger]
                model.submissions[submission].receipt_ids.contains(r)
                    ==> !after.receipts.dom().contains(r)
            &&& model.carrier(receipt_id) == Some(submission) && (forall|
                r: StrokeExecutionReceiptId,
            | #[trigger]
                model.submissions[submission].receipt_ids.contains(r)
                    ==> !after.receipts.dom().contains(r)) ==> !after.submissions.dom().contains(
                submission,
            )
            &&& after.next_submission_id == model.next_submission_id
            &&& after.pending == model.pending
            &&& after.in_flight == model.in_flight
            &&& after.ackable == model.ackable
            &&& after.progress == model.progress
            &&& after.succeeded == model.succeeded
            &&& after.failed == model.failed
        }),
{
    let without = model.without_receipt(receipt_id);
    assert forall|id: RendererSubmissionId| without.carries(id, receipt_id) == model.carries(
        id,
        receipt_id,
    ) by {}
    assert forall|id: RendererSubmissionId|
        without.oldest_carrier(id, receipt_id) == model.oldest_carrier(id, receipt_id) by {
        if without.oldest_carrier(id, receipt_id) {
            assert forall|o: RendererSubmissionId| #[trigger]
                model.carries(o, receipt_id) implies id.0 <= o.0 by {
                assert(without.carries(o, receipt_id));
            }
        }
        if model.oldest_carrier(id, receipt_id) {
            assert forall|o: RendererSubmissionId| #[trigger]
                without.carries(o, receipt_id) implies id.0 <= o.0 by {
                assert(model.carries(o, receipt_id));
            }
        }
    }
    if model.carrier(receipt_id) == Some(submission) {
        let held = choose|id: RendererSubmissionId| #[trigger] model.carries(id, receipt_id);
        assert(without.carries(held, receipt_id));
        crate::renderer::merge_laws::lemma_oldest_exists(model, held, receipt_id);
        let oldest = choose|id: RendererSubmissionId| #[trigger]
            model.oldest_carrier(id, receipt_id);
        assert(without.oldest_carrier(oldest, receipt_id));
        let again = choose|id: RendererSubmissionId| #[trigger]
            without.oldest_carrier(id, receipt_id);
        assert(model.oldest_carrier(again, receipt_id));
        assert(oldest.0 <= again.0 && again.0 <= oldest.0);
        assert(oldest == again);
    }
}

/// A merge can be brought to its end exactly if its submission is not in flight, it is
/// known, and it has ended as is asked for: in success to be finalized, in failure to be
/// aborted. Of several things that are wrong the first of these is told.
pub proof fn lemma_end_is_refused(
    model: MergeModel,
    receipt_id: StrokeExecutionReceiptId,
    terminal_state: ReceiptTerminalState,
)
    ensures
        ({
            let flying = model.carrier(receipt_id) is Some && exists|i: int|
                0 <= i < model.in_flight.len() && (
                #[trigger] model.in_flight[i]).renderer_submission_id == model.carrier(
                    receipt_id,
                )->0;
            let known = model.receipts.dom().contains(receipt_id);
            let state = model.receipts[receipt_id].state;
            let ended = match terminal_state {
                ReceiptTerminalState::Finalized => state is Succeeded,
                ReceiptTerminalState::Aborted => state is Failed,
            };
            match model.finalize_error(receipt_id, terminal_state) {
                None => !flying && known && ended,
                Some(
                    MergeFinalizeError::SubmissionStillInFlight {
                        receipt_id: r,
                        renderer_submission_id,
                    },
                ) => flying && r == receipt_id && model.carrier(receipt_id) == Some(
                    renderer_submission_id,
                ),
                Some(MergeFinalizeError::UnknownReceipt { receipt_id: r }) => !flying && !known && r
                    == receipt_id,
                Some(
                    MergeFinalizeError::IllegalTransition { receipt_id: r, terminal_state: t, .. },
                ) => !flying && known && !ended && r == receipt_id && t == terminal_state,
            }
        }),
{
}

} // verus!
