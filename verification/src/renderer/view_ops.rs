//! The operations by which the view and the document's tree are changed.
use std::collections::VecDeque;
use std::sync::Arc;
use vstd::prelude::*;

use crate::collections::{KeyMap, KeySet};
use crate::render_protocol::{
    BlendMode, RenderNodeSnapshot, RenderOp, RenderStepSupportMatrix, RenderTreeSnapshot,
    TransformMatrix4x4, Viewport,
};
use crate::renderer::dirty::{DirtyModel, DirtyStateStore};
use crate::renderer::draw_builders::CachedLeafDraw;
use crate::renderer::group_cache::GroupTargetCacheEntry;
use crate::renderer::planning::FrameSync;
use crate::renderer::state::{live_ids, CacheState, FrameState, ViewState};
use crate::scalar::same_numbers;

verus! {

/// A render tree without its images.
#[verifier::ext_equal]
pub enum TreeShape {
    Leaf { layer_id: u64, blend: BlendMode },
    Group { group_id: u64, blend: BlendMode, children: Seq<TreeShape> },
}

/// The tree without its images.
pub open spec fn shape(node: RenderNodeSnapshot) -> TreeShape
    decreases node,
{
    match node {
        RenderNodeSnapshot::Leaf { layer_id, blend, .. } => TreeShape::Leaf { layer_id, blend },
        RenderNodeSnapshot::Group { group_id, blend, children } => TreeShape::Group {
            group_id,
            blend,
            children: shapes(children@),
        },
    }
}

/// Several trees without their images.
pub open spec fn shapes(nodes: Seq<RenderNodeSnapshot>) -> Seq<TreeShape>
    decreases nodes,
{
    if nodes.len() == 0 {
        Seq::empty()
    } else {
        shapes(nodes.drop_last()).push(shape(nodes.last()))
    }
}

pub proof fn lemma_shapes(nodes: Seq<RenderNodeSnapshot>)
    ensures
        shapes(nodes).len() == nodes.len(),
        forall|i: int| 0 <= i < nodes.len() ==> #[trigger] shapes(nodes)[i] == shape(nodes[i]),
    decreases nodes.len(),
{
    if nodes.len() > 0 {
        lemma_shapes(nodes.drop_last());
    }
}

/// Tells whether two trees differ in their images at most.
pub fn render_node_semantics_equal_ignoring_image_handle(
    left: &RenderNodeSnapshot,
    right: &RenderNodeSnapshot,
) -> (equal: bool)
    ensures
        equal == (shape(*left) == shape(*right)),
    decreases left,
{
    match (left, right) {
        (
            RenderNodeSnapshot::Leaf { layer_id: left_layer_id, blend: left_blend, .. },
            RenderNodeSnapshot::Leaf { layer_id: right_layer_id, blend: right_blend, .. },
        ) => *left_layer_id == *right_layer_id && *left_blend == *right_blend,
        (
            RenderNodeSnapshot::Group {
                group_id: left_group_id,
                blend: left_blend,
                children: left_children,
            },
            RenderNodeSnapshot::Group {
                group_id: right_group_id,
                blend: right_blend,
                children: right_children,
            },
        ) => {
            proof {
                lemma_shapes(left_children@);
                lemma_shapes(right_children@);
            }
            if *left_group_id != *right_group_id || *left_blend != *right_blend
                || left_children.len() != right_children.len() {
                return false;
            }
            let mut index: usize = 0;
            while index < left_children.len()
                invariant
                    index <= left_children@.len(),
                    left_children@.len() == right_children@.len(),
                    *left matches RenderNodeSnapshot::Group { children: c, .. } && c
                        == left_children,
                    shape(*left) matches TreeShape::Group { children: c, .. } && c == shapes(
                        left_children@,
                    ),
                    shape(*right) matches TreeShape::Group { children: c, .. } && c == shapes(
                        right_children@,
                    ),
                    shapes(left_children@).len() == left_children@.len(),
                    shapes(right_children@).len() == right_children@.len(),
                    forall|i: int|
                        0 <= i < left_children@.len() ==> #[trigger] shapes(left_children@)[i]
                            == shape(left_children@[i]),
                    forall|i: int|
                        0 <= i < right_children@.len() ==> #[trigger] shapes(right_children@)[i]
                            == shape(right_children@[i]),
                    forall|i: int|
                        0 <= i < index ==> #[trigger] shapes(left_children@)[i] == shapes(
                            right_children@,
                        )[i],
                decreases left_children@.len() - index,
            {
                proof {
                    assert(decreases_to!(*left => left_children@[index as int]));
                    assert(shapes(left_children@)[index as int] == shape(
                        left_children@[index as int],
                    ));
                    assert(shapes(right_children@)[index as int] == shape(
                        right_children@[index as int],
                    ));
                }
                if !render_node_semantics_equal_ignoring_image_handle(
                    &left_children[index],
                    &right_children[index],
                ) {
                    return false;
                }
                index += 1;
            }
            assert(shapes(left_children@) =~= shapes(right_children@));
            true
        },
        _ => false,
    }
}

/// What the operations read and change.
#[verifier::ext_equal]
pub struct ViewSide {
    pub view: ViewState,
    pub bound: Option<RenderTreeSnapshot>,
    pub cached: Option<Arc<RenderNodeSnapshot>>,
    pub tree_dirty: bool,
    pub marks: DirtyModel,
    pub sync: FrameSync,
    pub versions: Map<u64, u64>,
    pub leaves: Map<u64, CachedLeafDraw>,
    pub groups: Map<u64, GroupTargetCacheEntry>,
}

/// What the operations read and change of the renderer's state.
pub open spec fn view_side(view: ViewState, frame: FrameState, cache: CacheState) -> ViewSide {
    ViewSide {
        view,
        bound: frame.bound_tree,
        cached: frame.cached_render_tree,
        tree_dirty: frame.render_tree_dirty,
        marks: frame.dirty_state_store@,
        sync: frame.frame_sync,
        versions: frame.layer_dirty_versions@,
        leaves: cache.leaf_draw_cache@,
        groups: cache.group_target_cache@,
    }
}

/// The tree has the root group at its root.
pub open spec fn rooted(snapshot: RenderTreeSnapshot) -> bool {
    *snapshot.root matches RenderNodeSnapshot::Group { group_id, .. } && group_id == 0
}

impl ViewSide {
    /// A tree is bound unless it is older than what is to be dropped.
    pub open spec fn accepts(&self, snapshot: RenderTreeSnapshot) -> bool {
        snapshot.revision >= self.view.drop_before_revision
    }

    /// The tree that is bound is older than the revision.
    pub open spec fn stale(&self, revision: u64) -> bool {
        self.bound matches Some(snapshot) && snapshot.revision < revision
    }

    /// A tree that is bound now makes the whole document composite dirty: it
    /// differs from the one before in more than images.
    pub open spec fn recomposes(&self, snapshot: RenderTreeSnapshot) -> bool {
        match self.bound {
            Some(current) => shape(*current.root) != shape(*snapshot.root),
            None => true,
        }
    }

    /// The operation can be applied: a tree that would be bound is rooted, its
    /// steps can be numbered, and a change can be counted.
    pub open spec fn applicable(&self, operation: RenderOp) -> bool {
        &&& operation matches RenderOp::BindRenderTree(snapshot) ==> (self.accepts(snapshot)
            ==> rooted(snapshot) && snapshot.steps().len() <= usize::MAX)
        &&& self.changed_by(operation) ==> self.sync.state_epoch < u64::MAX
    }

    /// The operation changes something that a frame depends on.
    pub open spec fn changed_by(&self, operation: RenderOp) -> bool {
        match operation {
            RenderOp::SetViewTransform { matrix } => !crate::scalar::equal_numbers(
                self.view.view_matrix,
                matrix,
            ),
            RenderOp::SetViewport(viewport) => self.view.viewport != Some(viewport),
            RenderOp::BindRenderTree(snapshot) => self.accepts(snapshot),
            RenderOp::MarkLayerDirty { layer_id } => true,
            RenderOp::SetBrushCommandQuota { max_commands } => self.view.brush_command_quota
                != max_commands,
            RenderOp::DropStaleWorkBeforeRevision { revision } => self.view.drop_before_revision
                != revision || self.stale(revision),
            RenderOp::PresentToSurface => true,
        }
    }

    /// A tree has been bound. Caches and marks of what is no longer in it are
    /// gone.
    pub open spec fn with_tree(&self, snapshot: RenderTreeSnapshot) -> ViewSide {
        let layers = crate::renderer::state::tree_layers(*snapshot.root);
        let groups = crate::renderer::state::tree_groups(*snapshot.root);
        let kept = self.marks.retained(layers);
        ViewSide {
            bound: Some(snapshot),
            tree_dirty: true,
            marks: DirtyModel {
                document_composite_dirty: kept.document_composite_dirty || self.recomposes(
                    snapshot,
                ),
                ..kept
            },
            leaves: self.leaves.restrict(layers),
            groups: self.groups.restrict(groups),
            ..*self
        }
    }

    /// Work on trees before a revision has been dropped.
    pub open spec fn without_stale_work(&self, revision: u64) -> ViewSide {
        let view = ViewState { drop_before_revision: revision, ..self.view };
        if self.stale(revision) {
            ViewSide {
                view,
                bound: None,
                cached: None,
                tree_dirty: false,
                marks: DirtyModel::clean(true),
                leaves: Map::empty(),
                groups: Map::empty(),
                ..*self
            }
        } else {
            ViewSide { view, ..*self }
        }
    }

    /// The operation has been applied, but for the frames that it outdates.
    pub open spec fn altered(&self, operation: RenderOp) -> ViewSide {
        match operation {
            RenderOp::SetViewTransform { matrix } => if self.changed_by(operation) {
                ViewSide {
                    view: ViewState { view_matrix: matrix, view_matrix_dirty: true, ..self.view },
                    ..*self
                }
            } else {
                *self
            },
            RenderOp::SetViewport(viewport) => ViewSide {
                view: ViewState { viewport: Some(viewport), ..self.view },
                ..*self
            },
            RenderOp::BindRenderTree(snapshot) => if self.accepts(snapshot) {
                self.with_tree(snapshot)
            } else {
                *self
            },
            RenderOp::MarkLayerDirty { layer_id } => ViewSide {
                marks: self.marks.with_full(layer_id),
                ..*self
            },
            RenderOp::SetBrushCommandQuota { max_commands } => ViewSide {
                view: ViewState { brush_command_quota: max_commands, ..self.view },
                ..*self
            },
            RenderOp::DropStaleWorkBeforeRevision { revision } => self.without_stale_work(revision),
            RenderOp::PresentToSurface => ViewSide {
                view: ViewState { present_requested: true, ..self.view },
                ..*self
            },
        }
    }

    /// The operation has been applied. A change outdates the frames that were
    /// planned before.
    pub open spec fn applied(&self, operation: RenderOp) -> ViewSide {
        let after = self.altered(operation);
        if self.changed_by(operation) {
            ViewSide {
                sync: FrameSync {
                    state_epoch: (self.sync.state_epoch + 1) as u64,
                    ..after.sync
                },
                ..after
            }
        } else {
            after
        }
    }

    /// Several operations have been applied, in order.
    pub open spec fn applied_all(&self, operations: Seq<RenderOp>) -> ViewSide
        decreases operations.len(),
    {
        if operations.len() == 0 {
            *self
        } else {
            self.applied_all(operations.drop_last()).applied(operations.last())
        }
    }

    /// The cached groups that the operation gives up.
    pub open spec fn released_by(&self, operation: RenderOp) -> Map<u64, GroupTargetCacheEntry> {
        self.groups.remove_keys(self.applied(operation).groups.dom())
    }
}

fn should_force_document_composite_dirty(
    current_snapshot: &Option<RenderTreeSnapshot>,
    incoming_snapshot: &RenderTreeSnapshot,
) -> (force: bool)
    ensures
        force == match *current_snapshot {
            Some(current) => shape(*current.root) != shape(*incoming_snapshot.root),
            None => true,
        },
{
    match current_snapshot {
        Some(current) => !render_node_semantics_equal_ignoring_image_handle(
            &*current.root,
            &*incoming_snapshot.root,
        ),
        None => true,
    }
}

fn should_accept_bound_snapshot(view_state: &ViewState, snapshot: &RenderTreeSnapshot) -> (accept:
    bool)
    ensures
        accept == (snapshot.revision >= view_state.drop_before_revision),
{
    snapshot.revision >= view_state.drop_before_revision
}

fn apply_view_matrix(view_state: &mut ViewState, matrix: TransformMatrix4x4) -> (changed: bool)
    ensures
        changed == !crate::scalar::equal_numbers(old(view_state).view_matrix, matrix),
        *final(view_state) == (if changed {
            (ViewState { view_matrix: matrix, view_matrix_dirty: true, ..*old(view_state) })
        } else {
            *old(view_state)
        }),
{
    if same_numbers(&view_state.view_matrix, &matrix) {
        return false;
    }
    view_state.view_matrix = matrix;
    view_state.view_matrix_dirty = true;
    true
}

fn apply_viewport(view_state: &mut ViewState, viewport: Viewport) -> (changed: bool)
    ensures
        changed == (old(view_state).viewport != Some(viewport)),
        *final(view_state) == (ViewState { viewport: Some(viewport), ..*old(view_state) }),
{
    match view_state.viewport {
        Some(current) => {
            if current == viewport {
                return false;
            }
        },
        None => {},
    }
    view_state.viewport = Some(viewport);
    true
}

fn apply_brush_command_quota(view_state: &mut ViewState, max_commands: u32) -> (changed: bool)
    ensures
        changed == (old(view_state).brush_command_quota != max_commands),
        *final(view_state) == (ViewState {
            brush_command_quota: max_commands,
            ..*old(view_state)
        }),
{
    if view_state.brush_command_quota == max_commands {
        return false;
    }
    view_state.brush_command_quota = max_commands;
    true
}

fn apply_present_request(view_state: &mut ViewState)
    ensures
        *final(view_state) == (ViewState { present_requested: true, ..*old(view_state) }),
{
    view_state.present_requested = true;
}

/// Forgets what was drawn for layers that are not in the tree.
fn retain_live_leaf_caches(
    frame_state: &mut FrameState,
    cache_state: &mut CacheState,
    snapshot: &RenderTreeSnapshot,
)
    ensures
        ({
            let layers = crate::renderer::state::tree_layers(*snapshot.root);
            &&& final(cache_state).leaf_draw_cache@ == old(cache_state).leaf_draw_cache@.restrict(
                layers,
            )
            &&& final(cache_state).group_target_cache == old(cache_state).group_target_cache
            &&& final(frame_state).dirty_state_store@ == old(frame_state).dirty_state_store@.retained(
                layers,
            )
            &&& final(frame_state).bound_tree == old(frame_state).bound_tree
            &&& final(frame_state).cached_render_tree == old(frame_state).cached_render_tree
            &&& final(frame_state).render_tree_dirty == old(frame_state).render_tree_dirty
            &&& final(frame_state).frame_sync == old(frame_state).frame_sync
            &&& final(frame_state).layer_dirty_versions == old(frame_state).layer_dirty_versions
        }),
{
    let (live_leaf_layers, _) = live_ids(snapshot);
    cache_state.leaf_draw_cache.retain_keys(&live_leaf_layers);
    frame_state.dirty_state_store.retain_layers(&live_leaf_layers);
}

/// Gives up the cached groups whose identifiers are not in `live`.
fn release_groups_except(
    group_target_cache: &mut KeyMap<u64, GroupTargetCacheEntry>,
    live: &KeySet<u64>,
) -> (released: KeyMap<u64, GroupTargetCacheEntry>)
    ensures
        final(group_target_cache)@ == old(group_target_cache)@.restrict(live@),
        released@ == old(group_target_cache)@.remove_keys(live@),
{
    let ghost start = group_target_cache@;
    let mut released: KeyMap<u64, GroupTargetCacheEntry> = KeyMap::new();
    let ids = group_target_cache.keys();
    let mut index: usize = 0;
    while index < ids.len()
        invariant
            index <= ids@.len(),
            ids@.no_duplicates(),
            ids@.to_set() == start.dom(),
            start == old(group_target_cache)@,
            forall|id: u64|
                #![trigger group_target_cache@.dom().contains(id)]
                #![trigger released@.dom().contains(id)]
                start.dom().contains(id) ==> {
                    let gone = !live@.contains(id) && ids@.take(index as int).contains(id);
                    &&& group_target_cache@.dom().contains(id) == !gone
                    &&& released@.dom().contains(id) == gone
                },
            forall|id: u64| #[trigger]
                group_target_cache@.dom().contains(id) ==> start.dom().contains(id)
                    && group_target_cache@[id] == start[id],
            forall|id: u64| #[trigger]
                released@.dom().contains(id) ==> start.dom().contains(id) && released@[id]
                    == start[id],
        decreases ids@.len() - index,
    {
        let id: u64 = ids[index];
        proof {
            assert(ids@.to_set().contains(id));
            assert(ids@.take(index + 1) =~= ids@.take(index as int).push(id));
            assert forall|other: u64|
                ids@.take(index + 1).contains(other) <==> (ids@.take(index as int).contains(other)
                    || other == id) by {
                if other == id {
                    assert(ids@.take(index + 1)[index as int] == id);
                }
                if ids@.take(index as int).contains(other) {
                    let i = choose|i: int|
                        0 <= i < index && ids@.take(index as int)[i] == other;
                    assert(ids@.take(index + 1)[i] == other);
                }
            }
            assert(!ids@.take(index as int).contains(id)) by {
                if ids@.take(index as int).contains(id) {
                    let i = choose|i: int| 0 <= i < index && ids@.take(index as int)[i] == id;
                    assert(ids@[i] == ids@[index as int]);
                }
            }
        }
        if !live.contains(id) {
            let entry = group_target_cache.remove(id).unwrap();
            released.insert(id, entry);
        }
        index += 1;
    }
    proof {
        assert(ids@.take(index as int) =~= ids@);
        assert forall|id: u64| start.dom().contains(id) implies ids@.contains(id) by {
            assert(ids@.to_set().contains(id));
        }
        assert(group_target_cache@ =~= start.restrict(live@));
        assert(released@ =~= start.remove_keys(live@));
    }
    released
}

/// Binds a tree.
fn apply_bound_snapshot(frame_state: &mut FrameState, snapshot: RenderTreeSnapshot)
    requires
        rooted(snapshot),
    ensures
        final(frame_state).bound_tree == Some(snapshot),
        final(frame_state).render_tree_dirty,
        final(frame_state).dirty_state_store@ == (DirtyModel {
            document_composite_dirty: old(
                frame_state,
            ).dirty_state_store@.document_composite_dirty || match old(frame_state).bound_tree {
                Some(current) => shape(*current.root) != shape(*snapshot.root),
                None => true,
            },
            ..old(frame_state).dirty_state_store@
        }),
        final(frame_state).cached_render_tree == old(frame_state).cached_render_tree,
        final(frame_state).frame_sync == old(frame_state).frame_sync,
        final(frame_state).layer_dirty_versions == old(frame_state).layer_dirty_versions,
{
    let force_document_composite_dirty = should_force_document_composite_dirty(
        &frame_state.bound_tree,
        &snapshot,
    );
    frame_state.bound_tree = Some(snapshot);
    frame_state.render_tree_dirty = true;
    if force_document_composite_dirty {
        frame_state.dirty_state_store.mark_document_composite_dirty();
    }
}

/// What dropping stale work has done.
#[derive(Debug, Clone, Copy, PartialEq, Eq, Structural)]
pub struct DropStaleWorkResult {
    pub state_changed: bool,
    pub clear_group_target_cache: bool,
}

/// Drops the work on trees before a revision, but for the cached groups.
fn drop_stale_work_before_revision(
    view_state: &mut ViewState,
    frame_state: &mut FrameState,
    cache_state: &mut CacheState,
    revision: u64,
) -> (result: DropStaleWorkResult)
    ensures
        ({
            let before = view_side(*old(view_state), *old(frame_state), *old(cache_state));
            let after = view_side(*final(view_state), *final(frame_state), *final(cache_state));
            &&& result.state_changed == before.changed_by(
                RenderOp::DropStaleWorkBeforeRevision { revision },
            )
            &&& result.clear_group_target_cache == before.stale(revision)
            &&& after == (ViewSide { groups: before.groups, ..before.without_stale_work(revision) })
        }),
{
    let mut state_changed = false;
    if view_state.drop_before_revision != revision {
        view_state.drop_before_revision = revision;
        state_changed = true;
    }
    let stale = match &frame_state.bound_tree {
        Some(snapshot) => snapshot.revision < revision,
        None => false,
    };
    if stale {
        frame_state.bound_tree = None;
        frame_state.cached_render_tree = None;
        frame_state.render_tree_dirty = false;
        cache_state.leaf_draw_cache.clear();
        frame_state.dirty_state_store = DirtyStateStore::with_document_dirty(true);
        return DropStaleWorkResult { state_changed: true, clear_group_target_cache: true };
    }
    DropStaleWorkResult { state_changed, clear_group_target_cache: false }
}

/// Applies an operation, and gives the cached groups that it gives up: their
/// tiles are to be released.
pub fn apply_view_op(
    view_state: &mut ViewState,
    frame_state: &mut FrameState,
    cache_state: &mut CacheState,
    operation: RenderOp,
) -> (released: KeyMap<u64, GroupTargetCacheEntry>)
    requires
        view_side(*old(view_state), *old(frame_state), *old(cache_state)).applicable(operation),
    ensures
        view_side(*final(view_state), *final(frame_state), *final(cache_state)) == view_side(
            *old(view_state),
            *old(frame_state),
            *old(cache_state),
        ).applied(operation),
        released@ == view_side(
            *old(view_state),
            *old(frame_state),
            *old(cache_state),
        ).released_by(operation),
{
    let ghost before = view_side(*view_state, *frame_state, *cache_state);
    let mut released: KeyMap<u64, GroupTargetCacheEntry> = KeyMap::new();
    let mut state_changed = false;
    match operation {
        RenderOp::SetViewTransform { matrix } => {
            state_changed = apply_view_matrix(view_state, matrix);
        },
        RenderOp::SetViewport(viewport) => {
            state_changed = apply_viewport(view_state, viewport);
        },
        RenderOp::BindRenderTree(snapshot) => {
            if should_accept_bound_snapshot(view_state, &snapshot) {
                let support = RenderStepSupportMatrix::current_executable_semantics();
                let validation = snapshot.validate_executable(&support);
                proof {
                    crate::render_protocol::lemma_current_semantics_accept_every_tree(snapshot);
                    assert(validation is Ok);
                }
                retain_live_leaf_caches(frame_state, cache_state, &snapshot);
                let (_, live_group_ids) = live_ids(&snapshot);
                released = release_groups_except(
                    &mut cache_state.group_target_cache,
                    &live_group_ids,
                );
                apply_bound_snapshot(frame_state, snapshot);
                state_changed = true;
                proof {
                    assert(released@ =~= before.released_by(operation));
                }
            }
        },
        RenderOp::MarkLayerDirty { layer_id } => {
            frame_state.dirty_state_store.mark_layer_full(layer_id);
            state_changed = true;
        },
        RenderOp::SetBrushCommandQuota { max_commands } => {
            state_changed = apply_brush_command_quota(view_state, max_commands);
        },
        RenderOp::DropStaleWorkBeforeRevision { revision } => {
            let result = drop_stale_work_before_revision(
                view_state,
                frame_state,
                cache_state,
                revision,
            );
            if result.clear_group_target_cache {
                let none: KeySet<u64> = KeySet::new();
                released = release_groups_except(&mut cache_state.group_target_cache, &none);
                proof {
                    assert(cache_state.group_target_cache@ =~= Map::<
                        u64,
                        GroupTargetCacheEntry,
                    >::empty());
                }
            }
            state_changed = result.state_changed;
        },
        RenderOp::PresentToSurface => {
            apply_present_request(view_state);
            state_changed = true;
        },
    }
    if state_changed {
        frame_state.frame_sync.note_state_change();
    }
    proof {
        let after = view_side(*view_state, *frame_state, *cache_state);
        assert(after =~= before.applied(operation));
        assert(released@ =~= before.released_by(operation));
    }
    released
}

/// Applies operations in order, and gives what each of them gives up.
pub fn apply_view_ops(
    view_state: &mut ViewState,
    frame_state: &mut FrameState,
    cache_state: &mut CacheState,
    operations: VecDeque<RenderOp>,
) -> (released: Vec<KeyMap<u64, GroupTargetCacheEntry>>)
    requires
        forall|i: int|
            0 <= i < operations@.len() ==> view_side(
                *old(view_state),
                *old(frame_state),
                *old(cache_state),
            ).applied_all(#[trigger] operations@.take(i)).applicable(operations@[i]),
    ensures
        view_side(*final(view_state), *final(frame_state), *final(cache_state)) == view_side(
            *old(view_state),
            *old(frame_state),
            *old(cache_state),
        ).applied_all(operations@),
        released@.len() == operations@.len(),
        forall|i: int|
            0 <= i < released@.len() ==> #[trigger] released@[i]@ == view_side(
                *old(view_state),
                *old(frame_state),
                *old(cache_state),
            ).applied_all(operations@.take(i)).released_by(operations@[i]),
{
    let ghost start = view_side(*view_state, *frame_state, *cache_state);
    let ghost all = operations@;
    let mut released: Vec<KeyMap<u64, GroupTargetCacheEntry>> = Vec::new();
    let mut operations = operations;
    let ghost mut done: int = 0;
    proof {
        assert(all.skip(0) =~= all);
        assert(all.take(0) =~= Seq::<RenderOp>::empty());
    }
    while operations.len() > 0
        invariant
            0 <= done <= all.len(),
            operations@ == all.skip(done),
            released@.len() == done,
            start == view_side(*old(view_state), *old(frame_state), *old(cache_state)),
            view_side(*view_state, *frame_state, *cache_state) == start.applied_all(all.take(done)),
            forall|i: int|
                0 <= i < all.len() ==> start.applied_all(#[trigger] all.take(i)).applicable(all[i]),
            forall|i: int|
                0 <= i < released@.len() ==> #[trigger] released@[i]@ == start.applied_all(
                    all.take(i),
                ).released_by(all[i]),
        decreases operations@.len(),
    {
        let operation = operations.pop_front().unwrap();
        proof {
            assert(operation == all[done]);
            assert(all.skip(done).skip(1) =~= all.skip(done + 1));
            assert(operations@ =~= all.skip(done + 1));
            assert(all.take(done + 1).drop_last() =~= all.take(done));
            assert(start.applied_all(all.take(done)).applicable(all[done]));
        }
        let groups = apply_view_op(view_state, frame_state, cache_state, operation);
        released.push(groups);
        proof {
            done = done + 1;
        }
    }
    proof {
        assert(all.take(done) =~= all);
    }
    released
}

/// A tree that has been dropped as stale is not bound again, and nothing older
/// either: once work before a revision has been dropped, no tree before that
/// revision is bound until a lower revision is asked for.
pub proof fn lemma_stale_trees_stay_out(
    side: ViewSide,
    revision: u64,
    snapshot: RenderTreeSnapshot,
)
    requires
        snapshot.revision < revision,
    ensures
        ({
            let dropped = side.applied(RenderOp::DropStaleWorkBeforeRevision { revision });
            &&& dropped.applied(RenderOp::BindRenderTree(snapshot)) == dropped
            &&& !(dropped.bound matches Some(bound) && bound.revision < revision)
        }),
{
}

/// A tree that differs from the bound one in its images only is bound without
/// composing the whole document anew.
pub proof fn lemma_image_change_keeps_composite(
    side: ViewSide,
    current: RenderTreeSnapshot,
    snapshot: RenderTreeSnapshot,
)
    requires
        side.bound == Some(current),
        shape(*current.root) == shape(*snapshot.root),
        side.accepts(snapshot),
    ensures
        side.applied(RenderOp::BindRenderTree(snapshot)).marks.document_composite_dirty
            == side.marks.document_composite_dirty,
{
}

/// An operation that changes nothing outdates no frame, and one that changes
/// something outdates every frame that was planned before.
pub proof fn lemma_changes_outdate_frames(
    side: ViewSide,
    operation: RenderOp,
    version: crate::renderer::planning::FrameVersion,
    revision: u64,
)
    requires
        side.sync.state_epoch < u64::MAX,
        side.sync.allows(version, revision),
    ensures
        side.applied(operation).sync.allows(version, revision) == !side.changed_by(operation),
{
}

/// Setting what is set already changes nothing.
pub proof fn lemma_setting_twice_changes_once(side: ViewSide, viewport: Viewport, quota: u32)
    ensures
        !side.applied(RenderOp::SetViewport(viewport)).changed_by(RenderOp::SetViewport(viewport)),
        !side.applied(RenderOp::SetBrushCommandQuota { max_commands: quota }).changed_by(
            RenderOp::SetBrushCommandQuota { max_commands: quota },
        ),
{
}

} // verus!
