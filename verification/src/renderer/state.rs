//! What the renderer remembers between frames.
use std::sync::Arc;
use vstd::prelude::*;

use crate::collections::{KeyMap, KeySet};
use crate::gpu_runtime::native_words::native_bytes;
use crate::render_protocol::{
    RenderNodeSnapshot, RenderTreeSnapshot, TransformMatrix4x4, Viewport,
};
use crate::renderer::dirty::{DirtyModel, DirtyStateStore};
use crate::renderer::draw_builders::CachedLeafDraw;
use crate::renderer::group_cache::GroupTargetCacheEntry;
use crate::renderer::planning::FrameSync;
use crate::scalar::FloatBits;

verus! {

/// How the document is looked at.
#[derive(Debug, Clone, Copy)]
pub struct ViewState {
    pub view_matrix: TransformMatrix4x4,
    pub view_matrix_dirty: bool,
    pub viewport: Option<Viewport>,
    pub brush_command_quota: u32,
    pub drop_before_revision: u64,
    pub present_requested: bool,
}

/// What is drawn, and what of it is outdated.
pub struct FrameState {
    pub bound_tree: Option<RenderTreeSnapshot>,
    pub cached_render_tree: Option<Arc<RenderNodeSnapshot>>,
    pub render_tree_dirty: bool,
    pub dirty_state_store: DirtyStateStore,
    pub frame_sync: FrameSync,
    /// The version up to which the changes of each layer have been taken in.
    pub layer_dirty_versions: KeyMap<u64, u64>,
}

/// What was drawn before and can be drawn again.
pub struct CacheState {
    pub leaf_draw_cache: KeyMap<u64, CachedLeafDraw>,
    pub group_target_cache: KeyMap<u64, GroupTargetCacheEntry>,
}

/// The words of a matrix.
pub open spec fn matrix_words(matrix: TransformMatrix4x4) -> Seq<u32> {
    Seq::new(16, |index: int| matrix[index].0)
}

/// The bytes of the uniform buffer that holds a matrix.
pub fn matrix_bytes(matrix: &TransformMatrix4x4) -> (bytes: Vec<u8>)
    ensures
        bytes@.len() == 64,
        crate::gpu_runtime::native_words::natively_laid_out(bytes@, matrix_words(*matrix)),
{
    let mut words: Vec<u32> = Vec::new();
    let mut index: usize = 0;
    while index < 16
        invariant
            index <= 16,
            words@ == matrix_words(*matrix).take(index as int),
        decreases 16 - index,
    {
        words.push(matrix[index].0);
        assert(words@ =~= matrix_words(*matrix).take(index + 1));
        index += 1;
    }
    assert(words@ =~= matrix_words(*matrix));
    native_bytes(&words)
}

/// The matrix that changes nothing.
pub fn identity_matrix() -> (matrix: TransformMatrix4x4)
    ensures
        crate::scalar::is_identity(matrix),
{
    let zero = FloatBits::zero();
    let one = FloatBits::one();
    [
        one,
        zero,
        zero,
        zero,
        zero,
        one,
        zero,
        zero,
        zero,
        zero,
        one,
        zero,
        zero,
        zero,
        zero,
        one,
    ]
}

impl ViewState {
    /// The view at the start: the whole document, nothing requested.
    pub fn new() -> (view: Self)
        ensures
            crate::scalar::is_identity(view.view_matrix),
            !view.view_matrix_dirty,
            view.viewport is None,
            view.brush_command_quota == 0,
            view.drop_before_revision == 0,
            !view.present_requested,
    {
        ViewState {
            view_matrix: identity_matrix(),
            view_matrix_dirty: false,
            viewport: None,
            brush_command_quota: 0,
            drop_before_revision: 0,
            present_requested: false,
        }
    }
}

impl FrameState {
    /// No tree yet. The document has to be composed once there is one.
    pub fn new() -> (frame: Self)
        ensures
            frame.bound_tree is None,
            frame.cached_render_tree is None,
            !frame.render_tree_dirty,
            frame.dirty_state_store@ == DirtyModel::clean(true),
            frame.frame_sync == (FrameSync { state_epoch: 0, last_committed_frame_id: None }),
            frame.layer_dirty_versions@ == Map::<u64, u64>::empty(),
    {
        FrameState {
            bound_tree: None,
            cached_render_tree: None,
            render_tree_dirty: false,
            dirty_state_store: DirtyStateStore::with_document_dirty(true),
            frame_sync: FrameSync::default(),
            layer_dirty_versions: KeyMap::new(),
        }
    }

    /// The revision of the tree that is bound, or zero.
    pub open spec fn revision(&self) -> u64 {
        match self.bound_tree {
            Some(snapshot) => snapshot.revision,
            None => 0,
        }
    }

    /// The revision of the tree that is bound, or zero.
    pub fn snapshot_revision(&self) -> (revision: u64)
        ensures
            revision == self.revision(),
    {
        match &self.bound_tree {
            Some(snapshot) => snapshot.revision,
            None => 0,
        }
    }
}

impl CacheState {
    /// Nothing drawn yet.
    pub fn new() -> (cache: Self)
        ensures
            cache.leaf_draw_cache@ == Map::<u64, CachedLeafDraw>::empty(),
            cache.group_target_cache@ == Map::<u64, GroupTargetCacheEntry>::empty(),
    {
        CacheState { leaf_draw_cache: KeyMap::new(), group_target_cache: KeyMap::new() }
    }
}

/// `Arc::clone`: another handle to the same tree.
#[verifier::external_body]
pub(crate) fn share_tree(tree: &Arc<RenderNodeSnapshot>) -> (shared: Arc<RenderNodeSnapshot>)
    ensures
        shared == *tree,
{
    Arc::clone(tree)
}

/// The layers of the leaves of a tree.
pub open spec fn tree_layers(node: RenderNodeSnapshot) -> Set<u64> {
    Set::new(|layer: u64| crate::renderer::render_tree::has_layer(node, layer))
}

/// The group is one of the tree.
pub open spec fn has_group(node: RenderNodeSnapshot, group: u64) -> bool
    decreases node,
{
    match node {
        RenderNodeSnapshot::Leaf { .. } => false,
        RenderNodeSnapshot::Group { group_id, children, .. } => group_id == group || any_has_group(
            children@,
            group,
        ),
    }
}

/// The group is one of one of the trees.
pub open spec fn any_has_group(nodes: Seq<RenderNodeSnapshot>, group: u64) -> bool
    decreases nodes,
{
    if nodes.len() == 0 {
        false
    } else {
        any_has_group(nodes.drop_last(), group) || has_group(nodes.last(), group)
    }
}

/// The groups of a tree.
pub open spec fn tree_groups(node: RenderNodeSnapshot) -> Set<u64> {
    Set::new(|group: u64| has_group(node, group))
}

/// Collects the layers and the groups of a tree.
pub fn collect_live_node_ids(
    node: &RenderNodeSnapshot,
    live_leaf_layers: &mut KeySet<u64>,
    live_group_ids: &mut KeySet<u64>,
)
    ensures
        final(live_leaf_layers)@ == old(live_leaf_layers)@.union(tree_layers(*node)),
        final(live_group_ids)@ == old(live_group_ids)@.union(tree_groups(*node)),
    decreases node,
{
    match node {
        RenderNodeSnapshot::Leaf { layer_id, .. } => {
            live_leaf_layers.insert(*layer_id);
            proof {
                assert(live_leaf_layers@ =~= old(live_leaf_layers)@.union(tree_layers(*node)));
                assert(live_group_ids@ =~= old(live_group_ids)@.union(tree_groups(*node)));
            }
        },
        RenderNodeSnapshot::Group { group_id, children, .. } => {
            live_group_ids.insert(*group_id);
            let mut index: usize = 0;
            proof {
                assert(live_leaf_layers@ =~= old(live_leaf_layers)@.union(
                    layers_of(children@.take(0)),
                ));
                assert(live_group_ids@ =~= old(live_group_ids)@.insert(*group_id).union(
                    groups_of(children@.take(0)),
                ));
            }
            while index < children.len()
                invariant
                    index <= children@.len(),
                    *node matches RenderNodeSnapshot::Group { children: c, .. } && c == children,
                    live_leaf_layers@ == old(live_leaf_layers)@.union(
                        layers_of(children@.take(index as int)),
                    ),
                    live_group_ids@ == old(live_group_ids)@.insert(*group_id).union(
                        groups_of(children@.take(index as int)),
                    ),
                decreases children@.len() - index,
            {
                proof {
                    assert(children@.take(index + 1).drop_last() =~= children@.take(index as int));
                    assert(children@.take(index + 1).last() == children@[index as int]);
                    assert(decreases_to!(*node => children@[index as int]));
                }
                collect_live_node_ids(&children[index], live_leaf_layers, live_group_ids);
                proof {
                    assert(live_leaf_layers@ =~= old(live_leaf_layers)@.union(
                        layers_of(children@.take(index + 1)),
                    ));
                    assert(live_group_ids@ =~= old(live_group_ids)@.insert(*group_id).union(
                        groups_of(children@.take(index + 1)),
                    ));
                }
                index += 1;
            }
            proof {
                assert(children@.take(index as int) =~= children@);
                assert(live_leaf_layers@ =~= old(live_leaf_layers)@.union(tree_layers(*node)));
                assert(live_group_ids@ =~= old(live_group_ids)@.union(tree_groups(*node)));
            }
        },
    }
}

spec fn layers_of(nodes: Seq<RenderNodeSnapshot>) -> Set<u64> {
    Set::new(|layer: u64| crate::renderer::render_tree::any_has_layer(nodes, layer))
}

spec fn groups_of(nodes: Seq<RenderNodeSnapshot>) -> Set<u64> {
    Set::new(|group: u64| any_has_group(nodes, group))
}

/// The layers and the groups of a snapshot.
pub fn live_ids(snapshot: &RenderTreeSnapshot) -> (ids: (KeySet<u64>, KeySet<u64>))
    ensures
        ids.0@ == tree_layers(*snapshot.root),
        ids.1@ == tree_groups(*snapshot.root),
{
    let mut live_leaf_layers: KeySet<u64> = KeySet::new();
    let mut live_group_ids: KeySet<u64> = KeySet::new();
    collect_live_node_ids(&*snapshot.root, &mut live_leaf_layers, &mut live_group_ids);
    proof {
        assert(live_leaf_layers@ =~= tree_layers(*snapshot.root));
        assert(live_group_ids@ =~= tree_groups(*snapshot.root));
    }
    (live_leaf_layers, live_group_ids)
}

/// Collects the layers of a tree.
pub fn collect_leaf_layers(node: &RenderNodeSnapshot, output: &mut KeySet<u64>)
    ensures
        final(output)@ == old(output)@.union(tree_layers(*node)),
{
    let mut groups: KeySet<u64> = KeySet::new();
    collect_live_node_ids(node, output, &mut groups);
}

} // verus!
