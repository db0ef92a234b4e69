//! What each operation on the view sets, and what it leaves alone; and how frames are
//! timed.
use vstd::prelude::*;

use crate::render_protocol::{
    RenderNodeSnapshot, RenderOp, RenderTreeSnapshot, TransformMatrix4x4,
};
use crate::renderer::resolver::RenderDataResolver;
use crate::renderer::state::FrameState;
use crate::renderer::timing::{FrameGpuTimingReport, GpuFrameTimingSlotState, TimingMapEvent};
use crate::renderer::view_ops::ViewSide;

verus! {

/// Nothing of the trees, marks and caches differs.
pub open spec fn same_work(left: ViewSide, right: ViewSide) -> bool {
    &&& left.bound == right.bound
    &&& left.cached == right.cached
    &&& left.tree_dirty == right.tree_dirty
    &&& left.marks == right.marks
    &&& left.versions == right.versions
    &&& left.leaves == right.leaves
    &&& left.groups == right.groups
}

/// An operation that sets something of the view has it set afterwards, and leaves
/// everything else alone. A matrix counts as the same if its numbers are equal.
pub proof fn lemma_view_is_set(side: ViewSide, operation: RenderOp)
    ensures
        ({
            let after = side.applied(operation);
            let before = side.view;
            match operation {
                RenderOp::SetViewTransform { matrix } => {
                    let same = forall|i: int|
                        0 <= i < 16 ==> (#[trigger] before.view_matrix@[i]).equals(matrix@[i]);
                    &&& same ==> after.view == before
                    &&& !same ==> after.view.view_matrix == matrix && after.view.view_matrix_dirty
                    &&& after.view.viewport == before.viewport
                    &&& after.view.brush_command_quota == before.brush_command_quota
                    &&& after.view.drop_before_revision == before.drop_before_revision
                    &&& after.view.present_requested == before.present_requested
                    &&& same_work(after, side)
                },
                RenderOp::SetViewport(viewport) => {
                    &&& after.view.viewport == Some(viewport)
                    &&& after.view.view_matrix == before.view_matrix
                    &&& after.view.view_matrix_dirty == before.view_matrix_dirty
                    &&& after.view.brush_command_quota == before.brush_command_quota
                    &&& after.view.drop_before_revision == before.drop_before_revision
                    &&& after.view.present_requested == before.present_requested
                    &&& same_work(after, side)
                },
                RenderOp::SetBrushCommandQuota { max_commands } => {
                    &&& after.view.brush_command_quota == max_commands
                    &&& after.view.viewport == before.viewport
                    &&& after.view.view_matrix == before.view_matrix
                    &&& after.view.view_matrix_dirty == before.view_matrix_dirty
                    &&& after.view.drop_before_revision == before.drop_before_revision
                    &&& after.view.present_requested == before.present_requested
                    &&& same_work(after, side)
                },
                RenderOp::PresentToSurface => {
                    &&& after.view.present_requested
                    &&& after.view.viewport == before.viewport
                    &&& after.view.view_matrix == before.view_matrix
                    &&& after.view.view_matrix_dirty == before.view_matrix_dirty
                    &&& after.view.brush_command_quota == before.brush_command_quota
                    &&& after.view.drop_before_revision == before.drop_before_revision
                    &&& same_work(after, side)
                },
                RenderOp::DropStaleWorkBeforeRevision { revision } => {
                    &&& after.view.drop_before_revision == revision
                    &&& after.view.viewport == before.viewport
                    &&& after.view.view_matrix == before.view_matrix
                    &&& after.view.view_matrix_dirty == before.view_matrix_dirty
                    &&& after.view.brush_command_quota == before.brush_command_quota
                    &&& after.view.present_requested == before.present_requested
                },
                RenderOp::BindRenderTree(_) | RenderOp::MarkLayerDirty { .. } => after.view
                    == before,
            }
        }),
{
}

/// The layer is marked in full.
pub open spec fn is_whole(side: ViewSide, layer_id: u64) -> bool {
    side.marks.masks.dom().contains(layer_id) && side.marks.masks[layer_id] is Full
        && side.marks.rects.dom().contains(layer_id) && side.marks.rects[layer_id] is Full
}

/// Marking a layer marks all of it, and nothing else.
pub proof fn lemma_layer_is_marked(side: ViewSide, layer_id: u64, other: u64)
    requires
        other != layer_id,
    ensures
        ({
            let after = side.applied(RenderOp::MarkLayerDirty { layer_id });
            &&& is_whole(after, layer_id)
            &&& after.marks.masks.dom().contains(other) == side.marks.masks.dom().contains(other)
            &&& after.marks.masks[other] == side.marks.masks[other]
            &&& after.marks.rects.dom().contains(other) == side.marks.rects.dom().contains(other)
            &&& after.marks.rects[other] == side.marks.rects[other]
            &&& after.marks.document_composite_dirty == side.marks.document_composite_dirty
            &&& after.bound == side.bound
            &&& after.cached == side.cached
            &&& after.tree_dirty == side.tree_dirty
            &&& after.versions == side.versions
            &&& after.leaves == side.leaves
            &&& after.groups == side.groups
        }),
{
}

/// The trees are alike but for the images of their leaves: the same layers and groups
/// at the same places, blended alike.
pub open spec fn alike_but_for_images(left: RenderNodeSnapshot, right: RenderNodeSnapshot) -> bool
    decreases left,
{
    match (left, right) {
        (
            RenderNodeSnapshot::Leaf { layer_id: a, blend: p, .. },
            RenderNodeSnapshot::Leaf { layer_id: b, blend: q, .. },
        ) => a == b && p == q,
        (
            RenderNodeSnapshot::Group { group_id: a, blend: p, children: l },
            RenderNodeSnapshot::Group { group_id: b, blend: q, children: r },
        ) => a == b && p == q && all_alike_but_for_images(l@, r@),
        _ => false,
    }
}

/// As `alike_but_for_images`, for several trees one by one.
pub open spec fn all_alike_but_for_images(
    left: Seq<RenderNodeSnapshot>,
    right: Seq<RenderNodeSnapshot>,
) -> bool
    decreases left,
{
    &&& left.len() == right.len()
    &&& left.len() > 0 ==> all_alike_but_for_images(left.drop_last(), right.drop_last())
        && alike_but_for_images(left.last(), right.last())
}

/// Two trees have the same shape exactly if they are alike but for the images of their
/// leaves.
pub proof fn lemma_shape_leaves_out_images_only(
    left: RenderNodeSnapshot,
    right: RenderNodeSnapshot,
)
    ensures
        crate::renderer::view_ops::shape(left) == crate::renderer::view_ops::shape(right)
            <==> alike_but_for_images(left, right),
    decreases left,
{
    match (left, right) {
        (
            RenderNodeSnapshot::Group { children: l, .. },
            RenderNodeSnapshot::Group { children: r, .. },
        ) => {
            lemma_shapes_leave_out_images_only(l@, r@);
        },
        _ => {},
    }
}

proof fn lemma_shapes_leave_out_images_only(
    left: Seq<RenderNodeSnapshot>,
    right: Seq<RenderNodeSnapshot>,
)
    ensures
        crate::renderer::view_ops::shapes(left) == crate::renderer::view_ops::shapes(right)
            <==> all_alike_but_for_images(left, right),
    decreases left,
{
    crate::renderer::view_ops::lemma_shapes(left);
    crate::renderer::view_ops::lemma_shapes(right);
    if left.len() == right.len() && left.len() > 0 {
        lemma_shapes_leave_out_images_only(left.drop_last(), right.drop_last());
        lemma_shape_leaves_out_images_only(left.last(), right.last());
        let l = crate::renderer::view_ops::shapes(left);
        let r = crate::renderer::view_ops::shapes(right);
        assert(l.drop_last() =~= crate::renderer::view_ops::shapes(left.drop_last()));
        assert(r.drop_last() =~= crate::renderer::view_ops::shapes(right.drop_last()));
        if l.drop_last() == r.drop_last() && l.last() == r.last() {
            assert(l =~= l.drop_last().push(l.last()));
            assert(r =~= r.drop_last().push(r.last()));
        }
    } else if left.len() == 0 && right.len() == 0 {
        assert(crate::renderer::view_ops::shapes(left) =~= crate::renderer::view_ops::shapes(
            right,
        ));
    }
}

/// Binding a tree that is not too old has it bound, and what is cached and marked is
/// kept exactly for the layers and groups that it has. The whole document is composed
/// anew if the tree differs from the one before in more than images. A tree that is too
/// old changes nothing.
pub proof fn lemma_tree_is_bound(side: ViewSide, snapshot: RenderTreeSnapshot, id: u64)
    ensures
        ({
            let after = side.applied(RenderOp::BindRenderTree(snapshot));
            let layer = crate::renderer::render_tree::has_layer(*snapshot.root, id);
            let group = crate::renderer::state::has_group(*snapshot.root, id);
            let alike = side.bound is Some && alike_but_for_images(
                *side.bound->0.root,
                *snapshot.root,
            );
            if snapshot.revision < side.view.drop_before_revision {
                after == side
            } else {
                &&& after.bound == Some(snapshot)
                &&& after.tree_dirty
                &&& after.cached == side.cached
                &&& after.versions == side.versions
                &&& after.leaves.dom().contains(id) <==> side.leaves.dom().contains(id) && layer
                &&& layer && side.leaves.dom().contains(id) ==> after.leaves[id]
                    == side.leaves[id]
                &&& after.groups.dom().contains(id) <==> side.groups.dom().contains(id) && group
                &&& group && side.groups.dom().contains(id) ==> after.groups[id]
                    == side.groups[id]
                &&& after.marks.masks.dom().contains(id) <==> side.marks.masks.dom().contains(id)
                    && layer
                &&& layer && side.marks.masks.dom().contains(id) ==> after.marks.masks[id]
                    == side.marks.masks[id]
                &&& after.marks.rects.dom().contains(id) <==> side.marks.rects.dom().contains(id)
                    && layer
                &&& layer && side.marks.rects.dom().contains(id) ==> after.marks.rects[id]
                    == side.marks.rects[id]
                &&& after.marks.document_composite_dirty <==> side.marks.document_composite_dirty
                    || !alike
            }
        }),
{
    assert forall|left: RenderNodeSnapshot, right: RenderNodeSnapshot|
        #[trigger] alike_but_for_images(left, right) <==> crate::renderer::view_ops::shape(left)
            == crate::renderer::view_ops::shape(right) by {
        lemma_shape_leaves_out_images_only(left, right);
    }
}

/// Dropping the work before a revision gives everything up if the tree that is bound is
/// older, so that the document is composed anew, and otherwise leaves it alone.
pub proof fn lemma_stale_work_is_dropped(side: ViewSide, revision: u64, id: u64)
    ensures
        ({
            let after = side.applied(RenderOp::DropStaleWorkBeforeRevision { revision });
            if side.bound is Some && side.bound->0.revision < revision {
                &&& after.bound is None
                &&& after.cached is None
                &&& !after.tree_dirty
                &&& after.marks.document_composite_dirty
                &&& !after.marks.masks.dom().contains(id)
                &&& !after.marks.rects.dom().contains(id)
                &&& !after.leaves.dom().contains(id)
                &&& !after.groups.dom().contains(id)
                &&& after.versions == side.versions
            } else {
                same_work(after, side)
            }
        }),
{
}

/// An operation counts as a change exactly if it changes what a frame depends on: it
/// then moves the epoch on by one, and else leaves it. The last frame that was committed
/// stays.
pub proof fn lemma_changes_are_counted(side: ViewSide, operation: RenderOp)
    requires
        side.sync.state_epoch < u64::MAX,
    ensures
        ({
            let after = side.applied(operation);
            let changed = match operation {
                RenderOp::SetViewTransform { matrix } => !(forall|i: int|
                    0 <= i < 16 ==> (#[trigger] side.view.view_matrix@[i]).equals(matrix@[i])),
                RenderOp::SetViewport(viewport) => side.view.viewport != Some(viewport),
                RenderOp::BindRenderTree(snapshot) => snapshot.revision
                    >= side.view.drop_before_revision,
                RenderOp::MarkLayerDirty { .. } => true,
                RenderOp::SetBrushCommandQuota { max_commands } => side.view.brush_command_quota
                    != max_commands,
                RenderOp::DropStaleWorkBeforeRevision { revision } => (
                side.view.drop_before_revision != revision) || (side.bound is Some
                    && side.bound->0.revision < revision),
                RenderOp::PresentToSurface => true,
            };
            &&& after.sync.state_epoch == side.sync.state_epoch + if changed {
                1int
            } else {
                0
            }
            &&& after.sync.last_committed_frame_id == side.sync.last_committed_frame_id
        }),
{
}

/// Operations are applied in order: first the first ones, then the others.
pub proof fn lemma_operations_are_applied_in_order(
    side: ViewSide,
    first: Seq<RenderOp>,
    more: Seq<RenderOp>,
)
    ensures
        side.applied_all(first + more) == side.applied_all(first).applied_all(more),
        first.len() == 0 ==> side.applied_all(first) == side,
        first.len() == 1 ==> side.applied_all(first) == side.applied(first[0]),
    decreases more.len(),
{
    if more.len() == 0 {
        assert(first + more =~= first);
    } else {
        assert((first + more).drop_last() =~= first + more.drop_last());
        lemma_operations_are_applied_in_order(side, first, more.drop_last());
    }
    if first.len() == 1 {
        assert(side.applied_all(first.drop_last()) == side);
    }
}

/// The groups that an operation gives up are exactly those that were cached before and
/// are not afterwards, as they were.
pub proof fn lemma_given_up_groups_are_handed_out(side: ViewSide, operation: RenderOp, id: u64)
    ensures
        side.released_by(operation).dom().contains(id) <==> side.groups.dom().contains(id)
            && !side.applied(operation).groups.dom().contains(id),
        side.released_by(operation).dom().contains(id) ==> side.released_by(operation)[id]
            == side.groups[id],
{
}

/// A slot goes round: after its frame has been submitted its timestamps are mapped, and
/// once they are read, or cannot be, it is idle again; an idle one stays idle.
pub proof fn lemma_timing_slots_go_round(state: GpuFrameTimingSlotState, event: TimingMapEvent)
    ensures
        ({
            let after = crate::renderer::timing::slot_after(state, event);
            match state {
                GpuFrameTimingSlotState::Idle => after is Idle,
                GpuFrameTimingSlotState::Submitted { frame_id } => (
                after matches GpuFrameTimingSlotState::Mapping { frame_id: mapped } && mapped
                    == frame_id),
                GpuFrameTimingSlotState::Mapping { .. } => {
                    &&& event is Pending ==> after == state
                    &&& !(event is Pending) ==> after is Idle
                },
            }
        }),
{
}

/// The slot with this number has a report to give: its timestamps are being mapped, and
/// were read.
pub open spec fn reports(
    slots: Seq<GpuFrameTimingSlotState>,
    events: Seq<TimingMapEvent>,
    slot: int,
    report: FrameGpuTimingReport,
) -> bool {
    &&& slots[slot] == (GpuFrameTimingSlotState::Mapping { frame_id: report.frame_id })
    &&& events[slot] == (TimingMapEvent::Ready { gpu_time_micros: Some(report.gpu_time_micros) })
}

/// The report of a poll is that of the last slot that has one, with the frame of the
/// slot and the time that was read; without any there is none.
pub proof fn lemma_last_slot_is_reported(
    slots: Seq<GpuFrameTimingSlotState>,
    events: Seq<TimingMapEvent>,
    count: int,
)
    ensures
        match crate::renderer::timing::last_report(slots, events, count) {
            Some(report) => exists|slot: int|
                0 <= slot < count && #[trigger] reports(slots, events, slot, report) && forall|
                    later: int,
                    other: FrameGpuTimingReport,
                |
                    slot < later < count ==> !#[trigger] reports(slots, events, later, other),
            None => forall|slot: int, other: FrameGpuTimingReport|
                0 <= slot < count ==> !#[trigger] reports(slots, events, slot, other),
        },
    decreases count,
{
    if count > 0 {
        match crate::renderer::timing::slot_report(slots[count - 1], events[count - 1]) {
            Some(report) => {
                assert(reports(slots, events, count - 1, report));
            },
            None => {
                lemma_last_slot_is_reported(slots, events, count - 1);
                assert forall|other: FrameGpuTimingReport| !#[trigger] reports(
                    slots,
                    events,
                    count - 1,
                    other,
                ) by {}
                if let Some(report) = crate::renderer::timing::last_report(
                    slots,
                    events,
                    count - 1,
                ) {
                    let slot = choose|slot: int|
                        0 <= slot < count - 1 && #[trigger] reports(slots, events, slot, report)
                            && forall|later: int, other: FrameGpuTimingReport|
                            slot < later < count - 1 ==> !#[trigger] reports(
                                slots,
                                events,
                                later,
                                other,
                            );
                    assert(reports(slots, events, slot, report));
                }
            },
        }
    }
}

/// The ticks of a frame are how far its second timestamp is after its first, none if it
/// is before, and unknown without two.
pub proof fn lemma_ticks_are_counted(timestamps: Seq<u64>)
    ensures
        match crate::renderer::timing::ticks_between(timestamps) {
            None => timestamps.len() < 2,
            Some(ticks) => timestamps.len() >= 2 && (timestamps[0] <= timestamps[1] ==> timestamps[0]
                + ticks == timestamps[1]) && (timestamps[0] > timestamps[1] ==> ticks == 0),
        },
{
}

/// A frame is made from the tree that is bound if that is new, and else from the one that
/// frames were made from before.
pub proof fn lemma_frames_are_made_from_the_newest_tree(frame: FrameState)
    ensures
        frame.render_tree_dirty && frame.bound_tree is Some
            ==> crate::renderer::frame::current_tree(frame) == Some(frame.bound_tree->0.root),
        frame.render_tree_dirty && frame.bound_tree is None
            ==> crate::renderer::frame::current_tree(frame) is None,
        !frame.render_tree_dirty ==> crate::renderer::frame::current_tree(frame)
            == frame.cached_render_tree,
{
}

/// After the changes of a tree have been taken in, a version is known for each of its
/// layers and for no other, and it is the one that follows from the version before, which
/// is zero for a layer that is new.
pub proof fn lemma_versions_are_those_of_the_tree<R: RenderDataResolver>(
    resolver: &R,
    tree: RenderNodeSnapshot,
    versions: Map<u64, u64>,
    layer_id: u64,
)
    ensures
        ({
            let after = crate::renderer::frame::versions_after(resolver, tree, versions);
            let since = if versions.dom().contains(layer_id) {
                versions[layer_id]
            } else {
                0
            };
            &&& after.dom().contains(layer_id) <==> crate::renderer::render_tree::has_layer(
                tree,
                layer_id,
            )
            &&& after.dom().contains(layer_id) ==> after[layer_id]
                == crate::renderer::frame::history_version(resolver, layer_id, since)
        }),
{
}

/// The buffer that holds a matrix has its sixteen numbers in their order.
pub proof fn lemma_matrix_is_laid_out_in_order(matrix: TransformMatrix4x4, place: int)
    requires
        0 <= place < 16,
    ensures
        crate::renderer::state::matrix_words(matrix).len() == 16,
        crate::renderer::state::matrix_words(matrix)[place] == matrix@[place].0,
{
}

} // verus!
