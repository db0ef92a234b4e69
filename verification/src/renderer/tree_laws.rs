//! What a tree consists of, and what drawing it asks of the renderer.
use vstd::prelude::*;

use crate::render_protocol::{
    BlendMode, BlendModePipelineStrategy, GroupPassStrategy, RenderNodeSnapshot, RenderStep,
    RenderStepSupportMatrix, RenderStepUnsupportedReason,
};
use crate::renderer::draw_list::TileCompositeSpace;

verus! {

/// The first node stands somewhere in the second: it is the second, or stands in one of
/// its children.
pub open spec fn stands_in(node: RenderNodeSnapshot, tree: RenderNodeSnapshot) -> bool
    decreases tree,
{
    ||| node == tree
    ||| match tree {
        RenderNodeSnapshot::Leaf { .. } => false,
        RenderNodeSnapshot::Group { children, .. } => stands_among(node, children@),
    }
}

/// The node stands in one of the trees.
pub open spec fn stands_among(node: RenderNodeSnapshot, trees: Seq<RenderNodeSnapshot>) -> bool
    decreases trees,
{
    trees.len() > 0 && (stands_among(node, trees.drop_last()) || stands_in(node, trees.last()))
}

/// A layer is one of a tree exactly if a leaf with the layer stands in the tree.
pub proof fn lemma_layers_are_those_of_leaves(tree: RenderNodeSnapshot, layer: u64)
    ensures
        crate::renderer::render_tree::has_layer(tree, layer) <==> exists|node: RenderNodeSnapshot|
            #[trigger] stands_in(node, tree) && node is Leaf && node->layer_id == layer,
    decreases tree,
{
    match tree {
        RenderNodeSnapshot::Leaf { .. } => {
            assert(stands_in(tree, tree));
        },
        RenderNodeSnapshot::Group { children, .. } => {
            lemma_layers_are_those_of_all_leaves(children@, layer);
            if crate::renderer::render_tree::any_has_layer(children@, layer) {
                let node = choose|node: RenderNodeSnapshot| #[trigger]
                    stands_among(node, children@) && node is Leaf && node->layer_id == layer;
                assert(stands_in(node, tree));
            }
            if exists|node: RenderNodeSnapshot| #[trigger]
                stands_in(node, tree) && node is Leaf && node->layer_id == layer {
                let node = choose|node: RenderNodeSnapshot| #[trigger]
                    stands_in(node, tree) && node is Leaf && node->layer_id == layer;
                assert(stands_among(node, children@));
            }
        },
    }
}

proof fn lemma_layers_are_those_of_all_leaves(trees: Seq<RenderNodeSnapshot>, layer: u64)
    ensures
        crate::renderer::render_tree::any_has_layer(trees, layer) <==> exists|
            node: RenderNodeSnapshot,
        | #[trigger]
            stands_among(node, trees) && node is Leaf && node->layer_id == layer,
    decreases trees,
{
    if trees.len() > 0 {
        lemma_layers_are_those_of_all_leaves(trees.drop_last(), layer);
        lemma_layers_are_those_of_leaves(trees.last(), layer);
        if crate::renderer::render_tree::any_has_layer(trees, layer) {
            let node = if crate::renderer::render_tree::any_has_layer(trees.drop_last(), layer) {
                choose|node: RenderNodeSnapshot| #[trigger]
                    stands_among(node, trees.drop_last()) && node is Leaf && node->layer_id
                        == layer
            } else {
                choose|node: RenderNodeSnapshot| #[trigger]
                    stands_in(node, trees.last()) && node is Leaf && node->layer_id == layer
            };
            assert(stands_among(node, trees));
        }
        if exists|node: RenderNodeSnapshot| #[trigger]
            stands_among(node, trees) && node is Leaf && node->layer_id == layer {
            let node = choose|node: RenderNodeSnapshot| #[trigger]
                stands_among(node, trees) && node is Leaf && node->layer_id == layer;
            assert(stands_among(node, trees.drop_last()) || stands_in(node, trees.last()));
        }
    }
}

/// A group is one of a tree exactly if a group with its number stands in the tree.
pub proof fn lemma_groups_are_those_that_stand_in_it(tree: RenderNodeSnapshot, group: u64)
    ensures
        crate::renderer::state::has_group(tree, group) <==> exists|node: RenderNodeSnapshot|
            #[trigger] stands_in(node, tree) && node is Group && node->group_id == group,
    decreases tree,
{
    match tree {
        RenderNodeSnapshot::Leaf { .. } => {},
        RenderNodeSnapshot::Group { children, .. } => {
            lemma_groups_are_those_that_stand_in_them(children@, group);
            assert(stands_in(tree, tree));
            if crate::renderer::state::any_has_group(children@, group) {
                let node = choose|node: RenderNodeSnapshot| #[trigger]
                    stands_among(node, children@) && node is Group && node->group_id == group;
                assert(stands_in(node, tree));
            }
            if exists|node: RenderNodeSnapshot| #[trigger]
                stands_in(node, tree) && node is Group && node->group_id == group {
                let node = choose|node: RenderNodeSnapshot| #[trigger]
                    stands_in(node, tree) && node is Group && node->group_id == group;
                assert(node == tree || stands_among(node, children@));
            }
        },
    }
}

proof fn lemma_groups_are_those_that_stand_in_them(trees: Seq<RenderNodeSnapshot>, group: u64)
    ensures
        crate::renderer::state::any_has_group(trees, group) <==> exists|node: RenderNodeSnapshot|
            #[trigger] stands_among(node, trees) && node is Group && node->group_id == group,
    decreases trees,
{
    if trees.len() > 0 {
        lemma_groups_are_those_that_stand_in_them(trees.drop_last(), group);
        lemma_groups_are_those_that_stand_in_it(trees.last(), group);
        if crate::renderer::state::any_has_group(trees, group) {
            let node = if crate::renderer::state::any_has_group(trees.drop_last(), group) {
                choose|node: RenderNodeSnapshot| #[trigger]
                    stands_among(node, trees.drop_last()) && node is Group && node->group_id
                        == group
            } else {
                choose|node: RenderNodeSnapshot| #[trigger]
                    stands_in(node, trees.last()) && node is Group && node->group_id == group
            };
            assert(stands_among(node, trees));
        }
        if exists|node: RenderNodeSnapshot| #[trigger]
            stands_among(node, trees) && node is Group && node->group_id == group {
            let node = choose|node: RenderNodeSnapshot| #[trigger]
                stands_among(node, trees) && node is Group && node->group_id == group;
            assert(stands_among(node, trees.drop_last()) || stands_in(node, trees.last()));
        }
    }
}

/// The number of nodes of a tree.
pub open spec fn node_count(tree: RenderNodeSnapshot) -> nat
    decreases tree,
{
    match tree {
        RenderNodeSnapshot::Leaf { .. } => 1,
        RenderNodeSnapshot::Group { children, .. } => 1 + node_total(children@),
    }
}

/// The number of nodes of several trees.
pub open spec fn node_total(trees: Seq<RenderNodeSnapshot>) -> nat
    decreases trees,
{
    if trees.len() == 0 {
        0
    } else {
        node_total(trees.drop_last()) + node_count(trees.last())
    }
}

/// A tree has a step for each of its nodes. The first is that of its root, with how it is
/// blended and whether it is a group, and behind it come those of the children: first
/// all of the first child, then all of the next, and so on.
pub proof fn lemma_steps_of_a_tree(tree: RenderNodeSnapshot)
    ensures
        ({
            let steps = crate::render_protocol::render_steps(tree);
            &&& steps.len() == node_count(tree)
            &&& match tree {
                RenderNodeSnapshot::Leaf { blend, .. } => steps[0] == (RenderStep {
                    blend,
                    group: false,
                }),
                RenderNodeSnapshot::Group { blend, children, .. } => {
                    &&& steps[0] == (RenderStep { blend, group: true })
                    &&& forall|i: int|
                        #![trigger children@[i]]
                        0 <= i < children@.len() ==> {
                            let start = 1 + node_total(children@.take(i));
                            &&& start + node_count(children@[i]) <= steps.len()
                            &&& steps.subrange(
                                start as int,
                                (start + node_count(children@[i])) as int,
                            ) == crate::render_protocol::render_steps(children@[i])
                        }
                },
            }
        }),
    decreases tree,
{
    match tree {
        RenderNodeSnapshot::Leaf { .. } => {},
        RenderNodeSnapshot::Group { children, .. } => {
            lemma_steps_of_trees(children@);
            let steps = crate::render_protocol::render_steps(tree);
            let inner = crate::render_protocol::render_steps_of(children@);
            assert forall|i: int| #![trigger children@[i]] 0 <= i < children@.len() implies {
                let start = 1 + node_total(children@.take(i));
                &&& start + node_count(children@[i]) <= steps.len()
                &&& steps.subrange(start as int, (start + node_count(children@[i])) as int)
                    == crate::render_protocol::render_steps(children@[i])
            } by {
                let start = node_total(children@.take(i)) as int;
                let end = start + node_count(children@[i]);
                assert(inner.subrange(start, end) == crate::render_protocol::render_steps(
                    children@[i],
                ));
                assert(steps.subrange(1 + start, 1 + end) =~= inner.subrange(start, end));
            }
        },
    }
}

/// As `lemma_steps_of_a_tree`, for several trees one after the other.
pub proof fn lemma_steps_of_trees(trees: Seq<RenderNodeSnapshot>)
    ensures
        crate::render_protocol::render_steps_of(trees).len() == node_total(trees),
        forall|i: int|
            #![trigger trees[i]]
            0 <= i < trees.len() ==> {
                let start = node_total(trees.take(i));
                &&& start + node_count(trees[i]) <= node_total(trees)
                &&& crate::render_protocol::render_steps_of(trees).subrange(
                    start as int,
                    (start + node_count(trees[i])) as int,
                ) == crate::render_protocol::render_steps(trees[i])
            },
    decreases trees,
{
    if trees.len() > 0 {
        let shorter = trees.drop_last();
        let steps = crate::render_protocol::render_steps_of(trees);
        let before = crate::render_protocol::render_steps_of(shorter);
        lemma_steps_of_trees(shorter);
        lemma_steps_of_a_tree(trees.last());
        lemma_last_steps_come_last(trees);
        assert forall|i: int| #![trigger trees[i]] 0 <= i < trees.len() implies {
            let start = node_total(trees.take(i));
            &&& start + node_count(trees[i]) <= node_total(trees)
            &&& steps.subrange(start as int, (start + node_count(trees[i])) as int)
                == crate::render_protocol::render_steps(trees[i])
        } by {
            let start = node_total(trees.take(i)) as int;
            let end = start + node_count(trees[i]);
            if i < shorter.len() {
                assert(shorter[i] == trees[i]);
                assert(shorter.take(i) =~= trees.take(i));
                assert(steps.subrange(start, end) =~= before.subrange(start, end));
            } else {
                assert(trees.take(i) =~= shorter);
                assert(steps.subrange(start, end) =~= crate::render_protocol::render_steps(
                    trees.last(),
                ));
            }
        }
    }
}

proof fn lemma_last_steps_come_last(trees: Seq<RenderNodeSnapshot>)
    requires
        trees.len() > 0,
    ensures
        crate::render_protocol::render_steps_of(trees) == crate::render_protocol::render_steps_of(
            trees.drop_last(),
        ) + crate::render_protocol::render_steps(trees.last()),
    decreases trees.len(),
{
    let rest = trees.drop_first();
    if trees.len() == 1 {
        assert(crate::render_protocol::render_steps_of(rest) =~= Seq::<RenderStep>::empty());
        assert(crate::render_protocol::render_steps_of(trees.drop_last()) =~= Seq::<
            RenderStep,
        >::empty());
        assert(trees[0] == trees.last());
        assert(crate::render_protocol::render_steps_of(trees)
            =~= crate::render_protocol::render_steps(trees.last()));
    } else {
        lemma_last_steps_come_last(rest);
        assert(rest.drop_last() =~= trees.drop_last().drop_first());
        assert(trees.drop_last()[0] == trees[0]);
        assert(rest.last() == trees.last());
        assert(crate::render_protocol::render_steps_of(trees)
            =~= crate::render_protocol::render_steps_of(trees.drop_last())
            + crate::render_protocol::render_steps(trees.last()));
    }
}

/// A step is turned down exactly if its blend mode has no strategy, or it is a group and
/// groups have none; with both, for the blend mode, which the reason names.
pub proof fn lemma_steps_are_turned_down(support: RenderStepSupportMatrix, step: RenderStep)
    ensures
        ({
            let strategy = match step.blend {
                BlendMode::Normal => support.normal_blend_strategy,
                BlendMode::Multiply => support.multiply_blend_strategy,
            };
            let unblended = strategy == BlendModePipelineStrategy::Unsupported;
            let ungrouped = step.group && support.group_strategy == GroupPassStrategy::Unsupported;
            match crate::render_protocol::unsupported_reason(support, step) {
                None => !unblended && !ungrouped,
                Some(RenderStepUnsupportedReason::BlendModeUnsupported { blend_mode }) => unblended
                    && blend_mode == step.blend,
                Some(RenderStepUnsupportedReason::GroupCompositingUnsupported) => !unblended
                    && ungrouped,
            }
        }),
{
}

/// The pipeline multiplies exactly if the strategy does, and draws slots whole exactly if
/// the space asks for it.
pub proof fn lemma_pipeline_follows_strategy_and_space(
    strategy: BlendModePipelineStrategy,
    space: TileCompositeSpace,
)
    ensures
        match crate::renderer::draw_list::pipeline_for(strategy, space) {
            None => strategy is Unsupported,
            Some(pipeline) => {
                &&& pipeline is AlphaContent || pipeline is AlphaSlot
                    <==> strategy is SurfaceAlphaBlend
                &&& pipeline is MultiplyContent || pipeline is MultiplySlot
                    <==> strategy is SurfaceMultiplyBlend
                &&& pipeline is AlphaContent || pipeline is MultiplyContent <==> space is Content
                &&& pipeline is AlphaSlot || pipeline is MultiplySlot <==> space is Slot
            },
        },
{
}

} // verus!
