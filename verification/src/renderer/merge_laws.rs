//! What holds of the merge orchestrator over several operations.
use vstd::prelude::*;

use crate::render_protocol::{
    GpuMergeOp, MergePlanMeta, ReceiptTerminalState, RendererSubmissionId, StrokeExecutionReceipt,
    StrokeExecutionReceiptId,
};
use crate::renderer::merge::{
    Collected, CompletedModel, CompletionSignal, DevicePoll, InFlightSubmission, MergeAckError,
    MergeFinalizeError, MergeModel, NoticeModel,
};

verus! {

/// How receipts, submissions and notices fit together in every state that the
/// operations lead to:
/// - no submission is in flight twice, and none carries a receipt twice;
/// - every receipt of a submission in flight is pending on that submission and
///   has no notice yet;
/// - every notice is for a receipt that is pending on the submission that the
///   notice names, and that submission is over;
/// - a receipt that is pending on a submission is carried by it.
pub open spec fn consistent(model: MergeModel) -> bool {
    &&& model.inv()
    &&& forall|i: int, j: int|
        0 <= i < j < model.in_flight.len() ==> (#[trigger] model.in_flight[i]).renderer_submission_id
            != (#[trigger] model.in_flight[j]).renderer_submission_id
    &&& forall|id: RendererSubmissionId| #[trigger]
        model.submissions.dom().contains(id) ==> model.submissions[id].receipt_ids.no_duplicates()
    &&& forall|i: int|
        0 <= i < model.in_flight.len() ==> model.submissions.dom().contains(
            (#[trigger] model.in_flight[i]).renderer_submission_id,
        )
    &&& forall|i: int, r: StrokeExecutionReceiptId|
        #![trigger model.in_flight[i], model.receipts.dom().contains(r)]
        0 <= i < model.in_flight.len() && model.carries(
            model.in_flight[i].renderer_submission_id,
            r,
        ) ==> waiting(model, model.in_flight[i].renderer_submission_id, r)
    &&& forall|r: StrokeExecutionReceiptId| #[trigger]
        model.ackable.dom().contains(r) ==> noticed(model, r)
    &&& forall|r: StrokeExecutionReceiptId| #[trigger]
        model.receipts.dom().contains(r) && model.receipts[r].state.submission() is Some
            ==> model.carries(model.receipts[r].state.submission()->0, r)
}

/// The receipt is pending on the submission and has no notice yet.
pub open spec fn waiting(
    model: MergeModel,
    id: RendererSubmissionId,
    r: StrokeExecutionReceiptId,
) -> bool {
    &&& model.receipts.dom().contains(r)
    &&& model.receipts[r].state.submission() == Some(id)
    &&& !model.ackable.dom().contains(r)
}

/// The receipt has a notice that fits it.
pub open spec fn noticed(model: MergeModel, r: StrokeExecutionReceiptId) -> bool {
    let notice = model.ackable[r];
    let id = notice.audit_meta.renderer_submission_id;
    &&& notice.receipt_id == r
    &&& model.receipts.dom().contains(r)
    &&& model.receipts[r].state.submission() == Some(id)
    &&& model.carries(id, r)
    &&& !model.flies(id)
}

/// The orchestrator starts out consistent.
pub proof fn lemma_initial_consistent()
    ensures
        consistent(MergeModel::initial()),
{
}

/// Planning a merge keeps the state consistent.
pub proof fn lemma_enqueue_keeps_consistent(
    model: MergeModel,
    receipt: StrokeExecutionReceipt,
    ops: Seq<GpuMergeOp>,
    meta: MergePlanMeta,
)
    requires
        consistent(model),
        model.enqueue_error(receipt, ops, meta) is None,
    ensures
        consistent(model.enqueued(receipt, ops)),
{
    let next = model.enqueued(receipt, ops);
    crate::renderer::merge::lemma_enqueued_inv(model, receipt, ops);
    let fresh = receipt.receipt_id;
    assert(forall|id: RendererSubmissionId, r: StrokeExecutionReceiptId|
        next.carries(id, r) == model.carries(id, r));
    assert forall|i: int, r: StrokeExecutionReceiptId|
        #![trigger next.in_flight[i], next.receipts.dom().contains(r)]
        0 <= i < next.in_flight.len() && next.carries(
            next.in_flight[i].renderer_submission_id,
            r,
        ) implies waiting(next, next.in_flight[i].renderer_submission_id, r) by {
        let here = model.receipts.dom().contains(r);
        assert(waiting(model, model.in_flight[i].renderer_submission_id, r));
    }
    assert forall|r: StrokeExecutionReceiptId| #[trigger]
        next.ackable.dom().contains(r) implies noticed(next, r) by {
        assert(noticed(model, r));
        assert(r != fresh);
        lemma_same_flight(model, next);
    }
    assert forall|r: StrokeExecutionReceiptId| #[trigger]
        next.receipts.dom().contains(r) && next.receipts[r].state.submission() is Some implies next.carries(
    next.receipts[r].state.submission()->0, r) by {
        assert(model.receipts.dom().contains(r));
    }
}

/// States with the same submissions in flight agree on what is in flight.
proof fn lemma_same_flight(left: MergeModel, right: MergeModel)
    requires
        left.in_flight == right.in_flight,
    ensures
        forall|id: RendererSubmissionId| left.flies(id) == right.flies(id),
{
    assert forall|id: RendererSubmissionId| left.flies(id) == right.flies(id) by {
        if left.flies(id) {
            let i = choose|i: int|
                0 <= i < left.in_flight.len() && (
                #[trigger] left.in_flight[i]).renderer_submission_id == id;
            assert(right.in_flight[i].renderer_submission_id == id);
        }
        if right.flies(id) {
            let i = choose|i: int|
                0 <= i < right.in_flight.len() && (
                #[trigger] right.in_flight[i]).renderer_submission_id == id;
            assert(left.in_flight[i].renderer_submission_id == id);
        }
    }
}

/// Committing a submission keeps the state consistent.
pub proof fn lemma_commit_keeps_consistent(
    model: MergeModel,
    id: RendererSubmissionId,
    frame_id: u64,
    ids: Seq<StrokeExecutionReceiptId>,
)
    requires
        consistent(model),
        id.0 < model.next_submission_id,
        !model.submissions.dom().contains(id),
        !model.flies(id),
        ids.len() <= model.pending.len(),
        ids == model.pending.take(ids.len() as int),
    ensures
        consistent(model.committed(id, frame_id, ids)),
{
    let next = model.committed(id, frame_id, ids);
    crate::renderer::merge::lemma_committed_inv(model, id, frame_id, ids);
    let last = model.in_flight.len() as int;
    assert forall|r: StrokeExecutionReceiptId| #[trigger] ids.contains(r) implies model.pending.contains(r) by {
        let k = ids.index_of(r);
        assert(model.pending[k] == r);
    }
    assert(ids.no_duplicates());
    assert(forall|i: int| 0 <= i < last ==> next.in_flight[i] == model.in_flight[i]);
    assert forall|i: int, j: int| 0 <= i < j < next.in_flight.len() implies (
    #[trigger] next.in_flight[i]).renderer_submission_id != (
    #[trigger] next.in_flight[j]).renderer_submission_id by {
        assert(model.in_flight[i].renderer_submission_id != id);
    }
    assert forall|s: RendererSubmissionId, r: StrokeExecutionReceiptId| s != id implies #[trigger] next.carries(
        s,
        r,
    ) == model.carries(s, r) by {}
    assert forall|i: int, r: StrokeExecutionReceiptId|
        #![trigger next.in_flight[i], next.receipts.dom().contains(r)]
        0 <= i < next.in_flight.len() && next.carries(
            next.in_flight[i].renderer_submission_id,
            r,
        ) implies waiting(next, next.in_flight[i].renderer_submission_id, r) by {
        let s = next.in_flight[i].renderer_submission_id;
        if i == last {
            assert(ids.contains(r));
            assert(model.pending.contains(r));
            if model.ackable.dom().contains(r) {
                assert(noticed(model, r));
            }
        } else {
            assert(model.in_flight[i].renderer_submission_id != id);
            assert(model.carries(s, r));
            let here = model.receipts.dom().contains(r);
            assert(waiting(model, s, r));
            if ids.contains(r) {
                assert(model.pending.contains(r));
            }
        }
    }
    assert forall|r: StrokeExecutionReceiptId| #[trigger]
        next.ackable.dom().contains(r) implies noticed(next, r) by {
        assert(noticed(model, r));
        let s = model.ackable[r].audit_meta.renderer_submission_id;
        if ids.contains(r) {
            assert(model.pending.contains(r));
        }
        assert(model.carries(s, r));
        assert(s != id);
        if next.flies(s) {
            let i = choose|i: int|
                0 <= i < next.in_flight.len() && (
                #[trigger] next.in_flight[i]).renderer_submission_id == s;
            assert(model.in_flight[i].renderer_submission_id == s);
        }
    }
    assert forall|r: StrokeExecutionReceiptId| #[trigger]
        next.receipts.dom().contains(r) && next.receipts[r].state.submission() is Some implies next.carries(
    next.receipts[r].state.submission()->0, r) by {
        assert(model.receipts.dom().contains(r));
    }
}

/// Acknowledging a notice keeps the state consistent.
pub proof fn lemma_ack_keeps_consistent(model: MergeModel, notice: NoticeModel)
    requires
        consistent(model),
        model.ack_error(notice) is None,
    ensures
        consistent(model.acked(notice)),
{
    let next = model.acked(notice);
    crate::renderer::merge::lemma_acked_inv(model, notice);
    let done = notice.receipt_id;
    lemma_same_flight(model, next);
    assert(noticed(model, done));
    assert(forall|id: RendererSubmissionId, r: StrokeExecutionReceiptId|
        next.carries(id, r) == model.carries(id, r));
    assert forall|i: int, r: StrokeExecutionReceiptId|
        #![trigger next.in_flight[i], next.receipts.dom().contains(r)]
        0 <= i < next.in_flight.len() && next.carries(
            next.in_flight[i].renderer_submission_id,
            r,
        ) implies waiting(next, next.in_flight[i].renderer_submission_id, r) by {
        let here = model.receipts.dom().contains(r);
        assert(waiting(model, model.in_flight[i].renderer_submission_id, r));
    }
    assert forall|r: StrokeExecutionReceiptId| #[trigger]
        next.ackable.dom().contains(r) implies noticed(next, r) by {
        assert(model.ackable.dom().contains(r));
        assert(noticed(model, r));
    }
    assert forall|r: StrokeExecutionReceiptId| #[trigger]
        next.receipts.dom().contains(r) && next.receipts[r].state.submission() is Some implies next.carries(
    next.receipts[r].state.submission()->0, r) by {
        assert(model.receipts.dom().contains(r));
    }
}

/// In a consistent state every notice that was handed out and not yet
/// acknowledged can be acknowledged.
pub proof fn lemma_registered_notice_can_be_acknowledged(model: MergeModel, notice: NoticeModel)
    requires
        consistent(model),
        model.ackable.dom().contains(notice.receipt_id),
        model.ackable[notice.receipt_id] == notice,
    ensures
        model.ack_error(notice) is None,
{
    assert(noticed(model, notice.receipt_id));
}

/// A notice is acknowledged at most once: whoever acknowledges the same
/// receipt again is refused, and nothing changes.
pub proof fn lemma_second_ack_is_refused(
    model: MergeModel,
    notice: NoticeModel,
    again: NoticeModel,
)
    requires
        model.ack_error(notice) is None,
        again.receipt_id == notice.receipt_id,
    ensures
        model.acked(notice).ack_error(again) == Some(
            MergeAckError::NoticeNotAckable { receipt_id: notice.receipt_id },
        ),
{
}

/// An acknowledgement that no poll has handed out a notice for is refused.
pub proof fn lemma_forged_ack_is_refused(model: MergeModel, notice: NoticeModel)
    requires
        !model.ackable.dom().contains(notice.receipt_id),
    ensures
        model.ack_error(notice) == Some(
            MergeAckError::NoticeNotAckable { receipt_id: notice.receipt_id },
        ),
{
}

/// A successful acknowledgement reports its receipt exactly once: as succeeded
/// or as failed, and with one progress event.
pub proof fn lemma_ack_reports_once(model: MergeModel, notice: NoticeModel)
    requires
        model.ack_error(notice) is None,
    ensures
        model.acked(notice).succeeded.len() + model.acked(notice).failed.len()
            == model.succeeded.len() + model.failed.len() + 1,
        model.acked(notice).progress.len() == model.progress.len() + 1,
        model.acked(notice).progress.last().receipt
            == model.receipts[notice.receipt_id].receipt,
{
}

/// While the submission of a receipt is in flight, the receipt cannot be
/// brought to its end, whichever end is asked for.
pub proof fn lemma_no_end_while_in_flight(
    model: MergeModel,
    receipt_id: StrokeExecutionReceiptId,
    terminal_state: ReceiptTerminalState,
)
    requires
        model.carrier(receipt_id) is Some,
        model.flies(model.carrier(receipt_id)->0),
    ensures
        model.finalize_error(receipt_id, terminal_state) == Some(
            MergeFinalizeError::SubmissionStillInFlight {
                receipt_id,
                renderer_submission_id: model.carrier(receipt_id)->0,
            },
        ),
{
}

/// A failed receipt is never finalized and a succeeded one is never aborted.
pub proof fn lemma_end_fits_outcome(model: MergeModel, receipt_id: StrokeExecutionReceiptId)
    requires
        model.receipts.dom().contains(receipt_id),
    ensures
        model.receipts[receipt_id].state is Failed ==> model.finalize_error(
            receipt_id,
            ReceiptTerminalState::Finalized,
        ) is Some,
        model.receipts[receipt_id].state is Succeeded ==> model.finalize_error(
            receipt_id,
            ReceiptTerminalState::Aborted,
        ) is Some,
{
}

/// Bringing a receipt to its end keeps the state consistent.
pub proof fn lemma_finalize_keeps_consistent(
    model: MergeModel,
    receipt_id: StrokeExecutionReceiptId,
    terminal_state: ReceiptTerminalState,
)
    requires
        consistent(model),
        model.finalize_error(receipt_id, terminal_state) is None,
    ensures
        consistent(model.finalized(receipt_id)),
{
    let middle = model.without_receipt(receipt_id);
    let next = model.finalized(receipt_id);
    crate::renderer::merge::lemma_forgotten_inv(model, receipt_id);
    lemma_same_flight(model, next);
    assert(forall|id: RendererSubmissionId, r: StrokeExecutionReceiptId|
        middle.carries(id, r) == model.carries(id, r));
    lemma_carrier_frame(model, middle, receipt_id);
    assert forall|id: RendererSubmissionId, r: StrokeExecutionReceiptId| #[trigger]
        next.carries(id, r) implies model.carries(id, r) by {}
    assert forall|id: RendererSubmissionId, r: StrokeExecutionReceiptId|
        model.carries(id, r) && next.receipts.dom().contains(r) implies #[trigger] next.carries(
        id,
        r,
    ) by {
        if middle.carrier(receipt_id) == Some(id) {
            assert(middle.submissions[id].receipt_ids.contains(r));
            assert(middle.receipts.dom().contains(r));
        }
    }
    assert forall|i: int| 0 <= i < next.in_flight.len() implies next.submissions.dom().contains(
        (#[trigger] next.in_flight[i]).renderer_submission_id,
    ) by {
        let s = model.in_flight[i].renderer_submission_id;
        assert(model.flies(s));
        assert(model.submissions.dom().contains(s));
    }
    assert forall|i: int, r: StrokeExecutionReceiptId|
        #![trigger next.in_flight[i], next.receipts.dom().contains(r)]
        0 <= i < next.in_flight.len() && next.carries(
            next.in_flight[i].renderer_submission_id,
            r,
        ) implies waiting(next, next.in_flight[i].renderer_submission_id, r) by {
        let here = model.receipts.dom().contains(r);
        assert(model.carries(model.in_flight[i].renderer_submission_id, r));
        assert(waiting(model, model.in_flight[i].renderer_submission_id, r));
    }
    assert forall|r: StrokeExecutionReceiptId| #[trigger]
        next.ackable.dom().contains(r) implies noticed(next, r) by {
        assert(noticed(model, r));
        assert(r != receipt_id);
        assert(next.receipts.dom().contains(r));
    }
    assert forall|r: StrokeExecutionReceiptId| #[trigger]
        next.receipts.dom().contains(r) && next.receipts[r].state.submission() is Some implies next.carries(
    next.receipts[r].state.submission()->0, r) by {
        assert(model.receipts.dom().contains(r));
        assert(model.carries(model.receipts[r].state.submission()->0, r));
    }
}

/// Which submission carries a receipt depends only on the submissions.
proof fn lemma_carrier_frame(
    left: MergeModel,
    right: MergeModel,
    receipt_id: StrokeExecutionReceiptId,
)
    requires
        left.submissions == right.submissions,
    ensures
        left.carrier(receipt_id) == right.carrier(receipt_id),
{
    assert forall|id: RendererSubmissionId| #[trigger]
        left.carries(id, receipt_id) == right.carries(id, receipt_id) by {}
    assert forall|id: RendererSubmissionId| #[trigger]
        left.oldest_carrier(id, receipt_id) == right.oldest_carrier(id, receipt_id) by {
        if left.oldest_carrier(id, receipt_id) {
            assert forall|o: RendererSubmissionId| #[trigger]
                right.carries(o, receipt_id) implies id.0 <= o.0 by {
                assert(left.carries(o, receipt_id));
            }
        }
        if right.oldest_carrier(id, receipt_id) {
            assert forall|o: RendererSubmissionId| #[trigger]
                left.carries(o, receipt_id) implies id.0 <= o.0 by {
                assert(right.carries(o, receipt_id));
            }
        }
    }
    let f = |id: RendererSubmissionId| left.oldest_carrier(id, receipt_id);
    let g = |id: RendererSubmissionId| right.oldest_carrier(id, receipt_id);
    if exists|id: RendererSubmissionId| #[trigger] left.carries(id, receipt_id) {
        let witness = choose|id: RendererSubmissionId| #[trigger] left.carries(id, receipt_id);
        assert(right.carries(witness, receipt_id));
        lemma_oldest_exists(left, witness, receipt_id);
        let l = left.carrier(receipt_id)->0;
        let r = right.carrier(receipt_id)->0;
        let some = choose|id: RendererSubmissionId| #[trigger] left.oldest_carrier(id, receipt_id);
        assert(left.oldest_carrier(some, receipt_id));
        assert(right.oldest_carrier(some, receipt_id));
        assert(left.oldest_carrier(l, receipt_id));
        assert(right.oldest_carrier(r, receipt_id));
        assert(left.oldest_carrier(r, receipt_id));
        assert(left.carries(l, receipt_id) && left.carries(r, receipt_id));
        assert(l.0 == r.0);
    } else {
        assert forall|id: RendererSubmissionId| !#[trigger] right.carries(id, receipt_id) by {
            assert(!left.carries(id, receipt_id));
        }
    }
}

/// Where some submission carries a receipt, there is an oldest one that does.
pub proof fn lemma_oldest_exists(
    model: MergeModel,
    id: RendererSubmissionId,
    receipt_id: StrokeExecutionReceiptId,
)
    requires
        model.carries(id, receipt_id),
    ensures
        exists|oldest: RendererSubmissionId| #[trigger] model.oldest_carrier(oldest, receipt_id),
    decreases id.0,
{
    if !model.oldest_carrier(id, receipt_id) {
        let older = choose|other: RendererSubmissionId|
            #[trigger] model.carries(other, receipt_id) && other.0 < id.0;
        lemma_oldest_exists(model, older, receipt_id);
    }
}

/// A receipt is brought to its end at most once.
pub proof fn lemma_end_is_final(
    model: MergeModel,
    receipt_id: StrokeExecutionReceiptId,
    terminal_state: ReceiptTerminalState,
    again: ReceiptTerminalState,
)
    requires
        model.finalize_error(receipt_id, terminal_state) is None,
    ensures
        model.finalized(receipt_id).finalize_error(receipt_id, again) is Some,
{
}

/// The submissions that a poll ends are distinct and were in flight, and those
/// that it leaves in flight are the others.
spec fn splits(
    model: MergeModel,
    completed: Seq<CompletedModel>,
    flying: Seq<InFlightSubmission>,
) -> bool {
    &&& forall|i: int, j: int|
        0 <= i < j < completed.len() ==> (#[trigger] completed[i]).renderer_submission_id != (
        #[trigger] completed[j]).renderer_submission_id
    &&& forall|i: int, j: int|
        0 <= i < j < flying.len() ==> (#[trigger] flying[i]).renderer_submission_id != (
        #[trigger] flying[j]).renderer_submission_id
    &&& forall|i: int|
        0 <= i < completed.len() ==> model.flies(
            (#[trigger] completed[i]).renderer_submission_id,
        )
    &&& forall|i: int|
        0 <= i < flying.len() ==> model.in_flight.contains(#[trigger] flying[i])
    &&& forall|i: int, j: int|
        0 <= i < completed.len() && 0 <= j < flying.len() ==> (
        #[trigger] completed[i]).renderer_submission_id != (
        #[trigger] flying[j]).renderer_submission_id
}

proof fn lemma_signals_split(
    model: MergeModel,
    count: int,
    signals: Seq<CompletionSignal>,
)
    requires
        consistent(model),
        0 <= count <= model.in_flight.len(),
    ensures
        splits(
            model,
            crate::renderer::merge::signalled(model.in_flight.take(count), signals),
            crate::renderer::merge::unsignalled(model.in_flight.take(count), signals),
        ),
        forall|i: int|
            0 <= i < crate::renderer::merge::signalled(
                model.in_flight.take(count),
                signals,
            ).len() ==> exists|k: int|
                0 <= k < count && (#[trigger] model.in_flight[k]).renderer_submission_id == (
                #[trigger] crate::renderer::merge::signalled(
                    model.in_flight.take(count),
                    signals,
                )[i]).renderer_submission_id,
        forall|i: int|
            0 <= i < crate::renderer::merge::unsignalled(
                model.in_flight.take(count),
                signals,
            ).len() ==> exists|k: int|
                0 <= k < count && #[trigger] model.in_flight[k]
                    == #[trigger] crate::renderer::merge::unsignalled(
                    model.in_flight.take(count),
                    signals,
                )[i],
    decreases count,
{
    if count > 0 {
        lemma_signals_split(model, count - 1, signals);
        assert(model.in_flight.take(count).drop_last() =~= model.in_flight.take(count - 1));
        let last = model.in_flight[count - 1];
        assert(model.flies(last.renderer_submission_id));
    }
}

/// A poll of a consistent state never fails, and leaves the state consistent:
/// every receipt of every submission that is over gets its notice.
pub proof fn lemma_poll_succeeds(model: MergeModel, frame_id: u64, poll: DevicePoll)
    requires
        consistent(model),
        poll.signals@.len() == model.in_flight.len(),
    ensures
        model.collect(model.polled(frame_id, poll)).error is None,
        consistent(model.after_poll(frame_id, poll)),
{
    let completed = model.polled(frame_id, poll);
    let flying = model.still_flying(frame_id, poll);
    if poll.failure(frame_id) is None {
        assert(model.in_flight.take(model.in_flight.len() as int) =~= model.in_flight);
        lemma_signals_split(model, model.in_flight.len() as int, poll.signals@);
    } else {
        assert forall|i: int| 0 <= i < completed.len() implies model.flies(
            (#[trigger] completed[i]).renderer_submission_id,
        ) by {
            assert(model.in_flight[i].renderer_submission_id
                == completed[i].renderer_submission_id);
        }
        assert forall|i: int, j: int| 0 <= i < j < completed.len() implies (
        #[trigger] completed[i]).renderer_submission_id != (
        #[trigger] completed[j]).renderer_submission_id by {
            assert(model.in_flight[i].renderer_submission_id
                != model.in_flight[j].renderer_submission_id);
        }
    }
    assert(splits(model, completed, flying));
    lemma_collect_split(model, completed, flying, completed.len() as int);
    assert(completed.take(completed.len() as int) =~= completed);
    let next = model.after_poll(frame_id, poll);
    lemma_collected_consistent(model, completed, flying, next);
}

/// The notices come from the submissions that are over, one for each receipt.
spec fn collected_from(
    model: MergeModel,
    completed: Seq<CompletedModel>,
    count: int,
    state: Collected,
) -> bool {
    &&& state.error is None
    &&& forall|r: StrokeExecutionReceiptId| #[trigger]
        model.ackable.dom().contains(r) ==> state.ackable.dom().contains(r) && state.ackable[r]
            == model.ackable[r]
    &&& forall|r: StrokeExecutionReceiptId| #[trigger]
        state.ackable.dom().contains(r) && !model.ackable.dom().contains(r) ==> exists|k: int|
            0 <= k < count && model.carries(
                (#[trigger] completed[k]).renderer_submission_id,
                r,
            ) && state.ackable[r] == crate::renderer::merge::notice_for(completed[k], r)
}

proof fn lemma_register_split(
    model: MergeModel,
    completed: Seq<CompletedModel>,
    flying: Seq<InFlightSubmission>,
    count: int,
    state: Collected,
    ids: Seq<StrokeExecutionReceiptId>,
    taken: int,
)
    requires
        consistent(model),
        splits(model, completed, flying),
        0 <= count < completed.len(),
        collected_from(model, completed, count, state),
        model.submissions.dom().contains(completed[count].renderer_submission_id),
        ids == model.submissions[completed[count].renderer_submission_id].receipt_ids,
        0 <= taken <= ids.len(),
    ensures
        collected_from(
            model,
            completed,
            count + 1,
            state.register_all(completed[count], ids.take(taken)),
        ),
        forall|r: StrokeExecutionReceiptId| #[trigger]
            state.register_all(completed[count], ids.take(taken)).ackable.dom().contains(r)
                ==> state.ackable.dom().contains(r) || ids.take(taken).contains(r),
    decreases taken,
{
    let done = completed[count];
    if taken == 0 {
        assert(ids.take(0) =~= Seq::empty());
        assert(state.register_all(done, ids.take(0)) == state);
    } else {
        lemma_register_split(model, completed, flying, count, state, ids, taken - 1);
        let shorter = ids.take(taken - 1);
        let longer = ids.take(taken);
        assert(longer.drop_last() =~= shorter);
        let before = state.register_all(done, shorter);
        let r = ids[taken - 1];
        assert(ids.contains(r));
        assert(model.carries(done.renderer_submission_id, r));
        assert(model.flies(done.renderer_submission_id));
        let f = choose|i: int|
            0 <= i < model.in_flight.len() && (
            #[trigger] model.in_flight[i]).renderer_submission_id == done.renderer_submission_id;
        let here = model.receipts.dom().contains(r);
        assert(waiting(model, model.in_flight[f].renderer_submission_id, r));
        if before.ackable.dom().contains(r) {
            if shorter.contains(r) {
                let k = shorter.index_of(r);
                assert(ids[k] == r);
                assert(false);
            } else {
                assert(state.ackable.dom().contains(r));
                let k = choose|k: int|
                    0 <= k < count && model.carries(
                        (#[trigger] completed[k]).renderer_submission_id,
                        r,
                    ) && state.ackable[r] == crate::renderer::merge::notice_for(completed[k], r);
                assert(model.flies(completed[k].renderer_submission_id));
                let g = choose|i: int|
                    0 <= i < model.in_flight.len() && (
                    #[trigger] model.in_flight[i]).renderer_submission_id
                        == completed[k].renderer_submission_id;
                assert(waiting(model, model.in_flight[g].renderer_submission_id, r));
                assert(completed[k].renderer_submission_id != done.renderer_submission_id);
                assert(false);
            }
        }
        let after = state.register_all(done, longer);
        assert(after == before.register(crate::renderer::merge::notice_for(done, r)));
        assert forall|q: StrokeExecutionReceiptId| #[trigger]
            after.ackable.dom().contains(q) implies state.ackable.dom().contains(q)
            || longer.contains(q) by {
            if q == r {
                assert(longer[taken - 1] == q);
            } else {
                assert(before.ackable.dom().contains(q));
                if shorter.contains(q) {
                    let k = shorter.index_of(q);
                    assert(longer[k] == q);
                }
            }
        }
        assert forall|q: StrokeExecutionReceiptId| #[trigger]
            after.ackable.dom().contains(q) && !model.ackable.dom().contains(q) implies exists|
            k: int,
        |
            0 <= k < count + 1 && model.carries(
                (#[trigger] completed[k]).renderer_submission_id,
                q,
            ) && after.ackable[q] == crate::renderer::merge::notice_for(completed[k], q) by {
            if q == r {
                assert(model.carries(completed[count].renderer_submission_id, q));
            } else {
                assert(before.ackable.dom().contains(q));
            }
        }
        assert(collected_from(model, completed, count + 1, after));
    }
}

proof fn lemma_collect_split(
    model: MergeModel,
    completed: Seq<CompletedModel>,
    flying: Seq<InFlightSubmission>,
    count: int,
)
    requires
        consistent(model),
        splits(model, completed, flying),
        0 <= count <= completed.len(),
    ensures
        collected_from(model, completed, count, model.collect(completed.take(count))),
    decreases count,
{
    if count > 0 {
        lemma_collect_split(model, completed, flying, count - 1);
        assert(completed.take(count).drop_last() =~= completed.take(count - 1));
        let done = completed[count - 1];
        assert(model.flies(done.renderer_submission_id));
        let f = choose|i: int|
            0 <= i < model.in_flight.len() && (
            #[trigger] model.in_flight[i]).renderer_submission_id == done.renderer_submission_id;
        assert(model.submissions.dom().contains(model.in_flight[f].renderer_submission_id));
        let ids = model.submissions[done.renderer_submission_id].receipt_ids;
        let state = model.collect(completed.take(count - 1));
        lemma_register_split(
            model,
            completed,
            flying,
            count - 1,
            state,
            ids,
            ids.len() as int,
        );
        assert(ids.take(ids.len() as int) =~= ids);
    }
}

proof fn lemma_collected_consistent(
    model: MergeModel,
    completed: Seq<CompletedModel>,
    flying: Seq<InFlightSubmission>,
    next: MergeModel,
)
    requires
        consistent(model),
        splits(model, completed, flying),
        collected_from(model, completed, completed.len() as int, model.collect(completed)),
        next == (MergeModel {
            in_flight: flying,
            ackable: model.collect(completed).ackable,
            ..model
        }),
    ensures
        consistent(next),
{
    assert(forall|id: RendererSubmissionId, r: StrokeExecutionReceiptId|
        next.carries(id, r) == model.carries(id, r));
    assert forall|id: RendererSubmissionId| #[trigger] next.flies(id) implies model.flies(id) by {
        let i = choose|i: int|
            0 <= i < next.in_flight.len() && (
            #[trigger] next.in_flight[i]).renderer_submission_id == id;
        assert(model.in_flight.contains(flying[i]));
        let k = model.in_flight.index_of(flying[i]);
        assert(model.in_flight[k].renderer_submission_id == id);
    }
    assert forall|i: int| 0 <= i < next.in_flight.len() implies (
    #[trigger] next.in_flight[i]).renderer_submission_id.0 < next.next_submission_id
        && next.submissions.dom().contains(next.in_flight[i].renderer_submission_id) by {
        assert(model.in_flight.contains(flying[i]));
        let k = model.in_flight.index_of(flying[i]);
        assert(model.in_flight[k] == flying[i]);
    }
    assert forall|i: int, r: StrokeExecutionReceiptId|
        #![trigger next.in_flight[i], next.receipts.dom().contains(r)]
        0 <= i < next.in_flight.len() && next.carries(
            next.in_flight[i].renderer_submission_id,
            r,
        ) implies waiting(next, next.in_flight[i].renderer_submission_id, r) by {
        assert(model.in_flight.contains(flying[i]));
        let f = model.in_flight.index_of(flying[i]);
        let here = model.receipts.dom().contains(r);
        assert(waiting(model, model.in_flight[f].renderer_submission_id, r));
        if next.ackable.dom().contains(r) {
            let k = choose|k: int|
                0 <= k < completed.len() && model.carries(
                    (#[trigger] completed[k]).renderer_submission_id,
                    r,
                ) && next.ackable[r] == crate::renderer::merge::notice_for(completed[k], r);
            assert(model.flies(completed[k].renderer_submission_id));
            let g = choose|j: int|
                0 <= j < model.in_flight.len() && (
                #[trigger] model.in_flight[j]).renderer_submission_id
                    == completed[k].renderer_submission_id;
            assert(waiting(model, model.in_flight[g].renderer_submission_id, r));
            assert(completed[k].renderer_submission_id != flying[i].renderer_submission_id);
            assert(false);
        }
    }
    assert forall|r: StrokeExecutionReceiptId| #[trigger]
        next.ackable.dom().contains(r) implies noticed(next, r) by {
        if model.ackable.dom().contains(r) {
            assert(noticed(model, r));
            let s = model.ackable[r].audit_meta.renderer_submission_id;
            assert(!next.flies(s));
        } else {
            let k = choose|k: int|
                0 <= k < completed.len() && model.carries(
                    (#[trigger] completed[k]).renderer_submission_id,
                    r,
                ) && next.ackable[r] == crate::renderer::merge::notice_for(completed[k], r);
            let s = completed[k].renderer_submission_id;
            assert(model.flies(s));
            let g = choose|j: int|
                0 <= j < model.in_flight.len() && (
                #[trigger] model.in_flight[j]).renderer_submission_id == s;
            let here = model.receipts.dom().contains(r);
            assert(waiting(model, model.in_flight[g].renderer_submission_id, r));
            if next.flies(s) {
                let j = choose|j: int|
                    0 <= j < next.in_flight.len() && (
                    #[trigger] next.in_flight[j]).renderer_submission_id == s;
                assert(completed[k].renderer_submission_id != flying[j].renderer_submission_id);
                assert(false);
            }
        }
    }
    assert forall|r: StrokeExecutionReceiptId| #[trigger]
        next.receipts.dom().contains(r) && next.receipts[r].state.submission() is Some implies next.carries(
    next.receipts[r].state.submission()->0, r) by {
        assert(model.receipts.dom().contains(r));
    }
}

} // verus!
