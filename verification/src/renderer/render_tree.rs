//! Carrying dirty areas up the render tree.
use vstd::prelude::*;

use crate::collections::KeyMap;
use crate::render_protocol::RenderNodeSnapshot;
use crate::renderer::dirty::{DirtyRect, DirtyRectMask, RectMaskModel, RenderNodeKey};

verus! {

broadcast use crate::collections::group_viewed;

/// A node of the render tree.
pub type RenderTreeNode = RenderNodeSnapshot;

/// The dirty areas of layers.
pub type LayerMasks = Map<u64, RectMaskModel>;

/// The dirty areas of nodes.
pub type NodeMasks = Map<RenderNodeKey, RectMaskModel>;

/// Two dirty areas together: everything if either is everything, and else the
/// rectangles of both.
pub open spec fn joined(base: RectMaskModel, incoming: RectMaskModel) -> RectMaskModel {
    match (base, incoming) {
        (RectMaskModel::Rects(left), RectMaskModel::Rects(right)) => RectMaskModel::Rects(
            left + right,
        ),
        _ => RectMaskModel::Full,
    }
}

/// As `joined`, where either may be missing.
pub open spec fn joined_options(
    base: Option<RectMaskModel>,
    incoming: Option<RectMaskModel>,
) -> Option<RectMaskModel> {
    match (base, incoming) {
        (Some(left), Some(right)) => Some(joined(left, right)),
        (Some(left), None) => Some(left),
        (None, right) => right,
    }
}

/// The dirty area of a node: a leaf has that of its layer, and a group that of
/// its children together.
pub open spec fn node_area(node: RenderTreeNode, layers: LayerMasks) -> Option<RectMaskModel>
    decreases node,
{
    match node {
        RenderNodeSnapshot::Leaf { layer_id, .. } => if layers.dom().contains(layer_id) {
            Some(layers[layer_id])
        } else {
            None
        },
        RenderNodeSnapshot::Group { children, .. } => nodes_area(children@, layers),
    }
}

/// The dirty area of several nodes together.
pub open spec fn nodes_area(nodes: Seq<RenderTreeNode>, layers: LayerMasks) -> Option<RectMaskModel>
    decreases nodes,
{
    if nodes.len() == 0 {
        None
    } else {
        joined_options(nodes_area(nodes.drop_last(), layers), node_area(nodes.last(), layers))
    }
}

/// The areas of a tree's dirty nodes, filed beside `filed`. Where a name occurs
/// more than once, the last node of that name counts, children before groups.
pub open spec fn file_areas(node: RenderTreeNode, layers: LayerMasks, filed: NodeMasks) -> NodeMasks
    decreases node,
{
    match node {
        RenderNodeSnapshot::Leaf { layer_id, .. } => if layers.dom().contains(layer_id) {
            filed.insert(RenderNodeKey::Leaf(layer_id), layers[layer_id])
        } else {
            filed
        },
        RenderNodeSnapshot::Group { group_id, children, .. } => {
            let inner = file_all_areas(children@, layers, filed);
            match nodes_area(children@, layers) {
                Some(area) => inner.insert(RenderNodeKey::Group(group_id), area),
                None => inner,
            }
        },
    }
}

/// As `file_areas`, for several trees one after the other.
pub open spec fn file_all_areas(
    nodes: Seq<RenderTreeNode>,
    layers: LayerMasks,
    filed: NodeMasks,
) -> NodeMasks
    decreases nodes,
{
    if nodes.len() == 0 {
        filed
    } else {
        file_areas(nodes.last(), layers, file_all_areas(nodes.drop_last(), layers, filed))
    }
}

/// Adds a dirty area to another.
pub fn merge_rect_masks(base: DirtyRectMask, incoming: DirtyRectMask) -> (merged: DirtyRectMask)
    ensures
        merged@ == joined(base@, incoming@),
{
    match base {
        DirtyRectMask::Full => DirtyRectMask::Full,
        DirtyRectMask::Rects(existing_rects) => match incoming {
            DirtyRectMask::Full => DirtyRectMask::Full,
            DirtyRectMask::Rects(incoming_rects) => {
                let mut rects: Vec<DirtyRect> = existing_rects;
                let mut more: Vec<DirtyRect> = incoming_rects;
                rects.append(&mut more);
                DirtyRectMask::Rects(rects)
            },
        },
    }
}

/// Collects the dirty areas of a tree's nodes, and gives back that of its root.
pub fn collect_node_dirty_rects(
    node: &RenderTreeNode,
    layer_dirty_rect_masks: &KeyMap<u64, DirtyRectMask>,
    dirty_nodes: &mut KeyMap<RenderNodeKey, DirtyRectMask>,
) -> (area: Option<DirtyRectMask>)
    ensures
        match area {
            Some(mask) => node_area(
                *node,
                crate::collections::viewed(layer_dirty_rect_masks@),
            ) == Some(mask@),
            None => node_area(
                *node,
                crate::collections::viewed(layer_dirty_rect_masks@),
            ) is None,
        },
        crate::collections::viewed(final(dirty_nodes)@) == file_areas(
            *node,
            crate::collections::viewed(layer_dirty_rect_masks@),
            crate::collections::viewed(old(dirty_nodes)@),
        ),
    decreases node,
{
    match node {
        RenderNodeSnapshot::Leaf { layer_id, .. } => {
            match layer_dirty_rect_masks.get(*layer_id) {
                None => None,
                Some(mask) => {
                    dirty_nodes.insert(RenderNodeKey::Leaf(*layer_id), mask.duplicate());
                    Some(mask.duplicate())
                },
            }
        },
        RenderNodeSnapshot::Group { group_id, children, .. } => {
            let ghost layers = crate::collections::viewed(layer_dirty_rect_masks@);
            let ghost start = crate::collections::viewed(dirty_nodes@);
            let mut group_dirty: Option<DirtyRectMask> = None;
            let mut index: usize = 0;
            while index < children.len()
                invariant
                    index <= children@.len(),
                    layers == crate::collections::viewed(layer_dirty_rect_masks@),
                    match group_dirty {
                        Some(mask) => nodes_area(children@.take(index as int), layers) == Some(
                            mask@,
                        ),
                        None => nodes_area(children@.take(index as int), layers) is None,
                    },
                    crate::collections::viewed(dirty_nodes@) == file_all_areas(
                        children@.take(index as int),
                        layers,
                        start,
                    ),
                    *node matches RenderNodeSnapshot::Group { children: c, .. } && c == children,
                decreases children@.len() - index,
            {
                proof {
                    assert(children@.take(index + 1).drop_last() =~= children@.take(index as int));
                    assert(children@.take(index + 1).last() == children@[index as int]);
                    assert(decreases_to!(*node => children@[index as int]));
                }
                let child_dirty = collect_node_dirty_rects(
                    &children[index],
                    layer_dirty_rect_masks,
                    dirty_nodes,
                );
                group_dirty =
                match child_dirty {
                    Some(child_mask) => match group_dirty {
                        Some(existing) => Some(merge_rect_masks(existing, child_mask)),
                        None => Some(child_mask),
                    },
                    None => group_dirty,
                };
                index += 1;
            }
            proof {
                assert(children@.take(index as int) =~= children@);
            }
            match &group_dirty {
                Some(mask) => {
                    dirty_nodes.insert(RenderNodeKey::Group(*group_id), mask.duplicate());
                },
                None => {},
            }
            group_dirty
        },
    }
}

/// The layer is that of a leaf of the tree.
pub open spec fn has_layer(node: RenderTreeNode, layer: u64) -> bool
    decreases node,
{
    match node {
        RenderNodeSnapshot::Leaf { layer_id, .. } => layer_id == layer,
        RenderNodeSnapshot::Group { children, .. } => any_has_layer(children@, layer),
    }
}

/// The layer is that of a leaf of one of the trees.
pub open spec fn any_has_layer(nodes: Seq<RenderTreeNode>, layer: u64) -> bool
    decreases nodes,
{
    if nodes.len() == 0 {
        false
    } else {
        any_has_layer(nodes.drop_last(), layer) || has_layer(nodes.last(), layer)
    }
}

/// A node is dirty exactly if one of its layers is, and dirty in full exactly
/// if one of its layers is dirty in full.
pub proof fn lemma_node_is_dirty_with_its_layers(node: RenderTreeNode, layers: LayerMasks)
    ensures
        node_area(node, layers) is Some <==> exists|layer: u64|
            has_layer(node, layer) && #[trigger] layers.dom().contains(layer),
        node_area(node, layers) == Some(RectMaskModel::Full) <==> exists|layer: u64|
            has_layer(node, layer) && #[trigger] layers.dom().contains(layer) && layers[layer]
                == RectMaskModel::Full,
    decreases node,
{
    match node {
        RenderNodeSnapshot::Leaf { layer_id, .. } => {
            assert(has_layer(node, layer_id));
        },
        RenderNodeSnapshot::Group { children, .. } => {
            lemma_nodes_are_dirty_with_their_layers(children@, layers);
            assert forall|layer: u64| has_layer(node, layer) == any_has_layer(
                children@,
                layer,
            ) by {}
        },
    }
}

/// As `lemma_node_is_dirty_with_its_layers`, for several nodes together.
pub proof fn lemma_nodes_are_dirty_with_their_layers(
    nodes: Seq<RenderTreeNode>,
    layers: LayerMasks,
)
    ensures
        nodes_area(nodes, layers) is Some <==> exists|layer: u64|
            any_has_layer(nodes, layer) && #[trigger] layers.dom().contains(layer),
        nodes_area(nodes, layers) == Some(RectMaskModel::Full) <==> exists|layer: u64|
            any_has_layer(nodes, layer) && #[trigger] layers.dom().contains(layer)
                && layers[layer] == RectMaskModel::Full,
    decreases nodes,
{
    if nodes.len() > 0 {
        let shorter = nodes.drop_last();
        let last = nodes.last();
        lemma_nodes_are_dirty_with_their_layers(shorter, layers);
        lemma_node_is_dirty_with_its_layers(last, layers);
        assert forall|layer: u64| any_has_layer(nodes, layer) == (any_has_layer(shorter, layer)
            || has_layer(last, layer)) by {}
        if nodes_area(shorter, layers) is Some {
            let layer = choose|layer: u64|
                any_has_layer(shorter, layer) && #[trigger] layers.dom().contains(layer);
            assert(any_has_layer(nodes, layer) && layers.dom().contains(layer));
        }
        if node_area(last, layers) is Some {
            let layer = choose|layer: u64|
                has_layer(last, layer) && #[trigger] layers.dom().contains(layer);
            assert(any_has_layer(nodes, layer) && layers.dom().contains(layer));
        }
        if nodes_area(shorter, layers) == Some(RectMaskModel::Full) {
            let layer = choose|layer: u64|
                any_has_layer(shorter, layer) && #[trigger] layers.dom().contains(layer)
                    && layers[layer] == RectMaskModel::Full;
            assert(any_has_layer(nodes, layer) && layers.dom().contains(layer));
        }
        if node_area(last, layers) == Some(RectMaskModel::Full) {
            let layer = choose|layer: u64|
                has_layer(last, layer) && #[trigger] layers.dom().contains(layer)
                    && layers[layer] == RectMaskModel::Full;
            assert(any_has_layer(nodes, layer) && layers.dom().contains(layer));
        }
    }
}

/// Nothing is filed for a tree without a dirty layer.
pub proof fn lemma_clean_tree_files_nothing(
    node: RenderTreeNode,
    layers: LayerMasks,
    filed: NodeMasks,
)
    requires
        forall|layer: u64| has_layer(node, layer) ==> !#[trigger] layers.dom().contains(layer),
    ensures
        file_areas(node, layers, filed) == filed,
    decreases node,
{
    match node {
        RenderNodeSnapshot::Leaf { layer_id, .. } => {
            assert(has_layer(node, layer_id));
        },
        RenderNodeSnapshot::Group { children, .. } => {
            assert forall|layer: u64| any_has_layer(children@, layer) implies !#[trigger] layers.dom().contains(
            layer) by {
                assert(has_layer(node, layer));
            }
            lemma_clean_trees_file_nothing(children@, layers, filed);
            lemma_nodes_are_dirty_with_their_layers(children@, layers);
        },
    }
}

proof fn lemma_clean_trees_file_nothing(
    nodes: Seq<RenderTreeNode>,
    layers: LayerMasks,
    filed: NodeMasks,
)
    requires
        forall|layer: u64| any_has_layer(nodes, layer) ==> !#[trigger] layers.dom().contains(layer),
    ensures
        file_all_areas(nodes, layers, filed) == filed,
    decreases nodes,
{
    if nodes.len() > 0 {
        let shorter = nodes.drop_last();
        assert forall|layer: u64| any_has_layer(shorter, layer) implies !#[trigger] layers.dom().contains(
        layer) by {
            assert(any_has_layer(nodes, layer));
        }
        assert forall|layer: u64| has_layer(nodes.last(), layer) implies !#[trigger] layers.dom().contains(
        layer) by {
            assert(any_has_layer(nodes, layer));
        }
        lemma_clean_trees_file_nothing(shorter, layers, filed);
        lemma_clean_tree_files_nothing(nodes.last(), layers, filed);
    }
}

} // verus!
