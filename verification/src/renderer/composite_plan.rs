//! What a frame composes: for each node of the tree, whether it is built anew
//! or drawn from its cache, and which of its tiles are concerned.
use vstd::prelude::*;

use crate::collections::{KeyMap, KeySet};
use crate::render_protocol::{BlendMode, RenderNodeSnapshot};
use crate::renderer::dirty::{DirtyTileMask, TileCoord, TileMaskModel};
use crate::renderer::draw_builders::{leaf_should_rebuild, CachedLeafDraw, TileDrawInstance};
use crate::renderer::planning::{
    copy_selection, DecisionModel, GroupDecisionEngine, GroupRenderDecision, GroupRerenderMode,
    TileSelection,
};
use crate::renderer::resolver::ImageSource;
use crate::renderer::state::CacheState;

verus! {

broadcast use crate::collections::group_viewed;

/// The dirty tiles of a frame.
#[derive(Debug)]
pub struct DirtyExecutionPlan {
    pub force_group_rerender: bool,
    pub dirty_leaf_tiles: KeyMap<u64, DirtyTileMask>,
    pub dirty_group_tiles: KeyMap<u64, DirtyTileMask>,
}

/// The dirty tiles of a frame.
#[verifier::ext_equal]
pub struct DirtyPlanModel {
    pub force_group_rerender: bool,
    pub leaves: Map<u64, TileMaskModel>,
    pub groups: Map<u64, TileMaskModel>,
}

impl View for DirtyExecutionPlan {
    type V = DirtyPlanModel;

    open spec fn view(&self) -> DirtyPlanModel {
        DirtyPlanModel {
            force_group_rerender: self.force_group_rerender,
            leaves: crate::collections::viewed(self.dirty_leaf_tiles@),
            groups: crate::collections::viewed(self.dirty_group_tiles@),
        }
    }
}

/// What a frame does with a node.
#[derive(Debug)]
pub enum CompositeNodePlan {
    Leaf {
        layer_id: u64,
        blend: BlendMode,
        image_source: ImageSource,
        should_rebuild: bool,
        dirty_tiles: Option<DirtyTileMask>,
        visible_tiles: Option<KeySet<TileCoord>>,
    },
    Group {
        group_id: u64,
        blend: BlendMode,
        decision: GroupRenderDecision,
        emit_tiles: Option<KeySet<TileCoord>>,
        children: Vec<CompositeNodePlan>,
    },
}

/// What a frame does with a node.
#[verifier::ext_equal]
pub enum PlanModel {
    Leaf {
        layer_id: u64,
        blend: BlendMode,
        image_source: ImageSource,
        should_rebuild: bool,
        dirty_tiles: Option<TileMaskModel>,
        visible_tiles: TileSelection,
    },
    Group {
        group_id: u64,
        blend: BlendMode,
        decision: DecisionModel,
        emit_tiles: TileSelection,
        children: Seq<PlanModel>,
    },
}

/// The dirty tiles behind a mask, if there is one.
pub open spec fn mask_model(mask: Option<DirtyTileMask>) -> Option<TileMaskModel> {
    match mask {
        Some(mask) => Some(mask@),
        None => None,
    }
}

/// What a frame does with a node, as a plain value.
pub open spec fn plan_model(plan: CompositeNodePlan) -> PlanModel
    decreases plan,
{
    match plan {
        CompositeNodePlan::Leaf {
            layer_id,
            blend,
            image_source,
            should_rebuild,
            dirty_tiles,
            visible_tiles,
        } => PlanModel::Leaf {
            layer_id,
            blend,
            image_source,
            should_rebuild,
            dirty_tiles: mask_model(dirty_tiles),
            visible_tiles: crate::renderer::planning::selection(visible_tiles),
        },
        CompositeNodePlan::Group { group_id, blend, decision, emit_tiles, children } => {
            PlanModel::Group {
                group_id,
                blend,
                decision: decision@,
                emit_tiles: crate::renderer::planning::selection(emit_tiles),
                children: plan_models(children@),
            }
        },
    }
}

/// As `plan_model`, for several nodes.
pub open spec fn plan_models(plans: Seq<CompositeNodePlan>) -> Seq<PlanModel>
    decreases plans,
{
    if plans.len() == 0 {
        Seq::empty()
    } else {
        plan_models(plans.drop_last()).push(plan_model(plans.last()))
    }
}

/// There is one model for each plan.
pub proof fn lemma_plan_models(plans: Seq<CompositeNodePlan>)
    ensures
        plan_models(plans).len() == plans.len(),
        forall|i: int| 0 <= i < plans.len() ==> #[trigger] plan_models(plans)[i] == plan_model(plans[i]),
    decreases plans.len(),
{
    if plans.len() > 0 {
        lemma_plan_models(plans.drop_last());
    }
}

/// What was drawn for a layer.
#[verifier::ext_equal]
pub struct LeafModel {
    pub blend: BlendMode,
    pub image_source: ImageSource,
    pub instances: Seq<TileDrawInstance>,
}

impl View for CachedLeafDraw {
    type V = LeafModel;

    open spec fn view(&self) -> LeafModel {
        LeafModel {
            blend: self.blend,
            image_source: self.image_source,
            instances: self.draw_instances@,
        }
    }
}

impl LeafModel {
    /// It can be drawn again as it is.
    pub open spec fn hits(&self, blend: BlendMode, image_source: ImageSource) -> bool {
        self.blend == blend && self.image_source == image_source && self.instances.len() > 0
    }
}

/// The entry of a map, if there is one.
pub open spec fn entry<V>(map: Map<u64, V>, key: u64) -> Option<V> {
    if map.dom().contains(key) {
        Some(map[key])
    } else {
        None
    }
}

/// The plan for a node, of which the tiles in `active` are concerned.
///
/// A leaf is built anew when it is dirty or its cache cannot be drawn from.
/// Below a group that is drawn from its cache nothing is planned. Below one
/// that is rendered anew, the tiles that are rendered anew are concerned.
pub open spec fn planned(
    node: RenderNodeSnapshot,
    dirty: DirtyPlanModel,
    leaves: Map<u64, LeafModel>,
    cached_groups: Set<u64>,
    active: TileSelection,
) -> PlanModel
    decreases node,
{
    match node {
        RenderNodeSnapshot::Leaf { layer_id, blend, image_handle } => {
            let image_source = ImageSource::LayerImage { image_handle };
            PlanModel::Leaf {
                layer_id,
                blend,
                image_source,
                should_rebuild: dirty.leaves.dom().contains(layer_id) || !(
                leaves.dom().contains(layer_id) && leaves[layer_id].hits(blend, image_source)),
                dirty_tiles: entry(dirty.leaves, layer_id),
                visible_tiles: active,
            }
        },
        RenderNodeSnapshot::Group { group_id, blend, children } => {
            let decision = crate::renderer::planning::decided(
                dirty.force_group_rerender,
                !cached_groups.contains(group_id),
                entry(dirty.groups, group_id),
                active,
            );
            PlanModel::Group {
                group_id,
                blend,
                decision,
                emit_tiles: if decision.mode is UseCache {
                    active
                } else {
                    decision.tiles
                },
                children: if decision.mode is Rerender {
                    planned_all(children@, dirty, leaves, cached_groups, decision.tiles)
                } else {
                    Seq::empty()
                },
            }
        },
    }
}

/// The plans for several nodes.
pub open spec fn planned_all(
    nodes: Seq<RenderNodeSnapshot>,
    dirty: DirtyPlanModel,
    leaves: Map<u64, LeafModel>,
    cached_groups: Set<u64>,
    active: TileSelection,
) -> Seq<PlanModel>
    decreases nodes,
{
    if nodes.len() == 0 {
        Seq::empty()
    } else {
        planned_all(nodes.drop_last(), dirty, leaves, cached_groups, active).push(
            planned(nodes.last(), dirty, leaves, cached_groups, active),
        )
    }
}

fn copy_mask(mask: Option<&DirtyTileMask>) -> (copy: Option<DirtyTileMask>)
    ensures
        mask_model(copy) == crate::renderer::planning::mask_of(mask),
{
    match mask {
        Some(mask) => Some(mask.duplicate()),
        None => None,
    }
}

/// Plans what a frame does with a node.
pub fn build_composite_node_plan(
    node: &RenderNodeSnapshot,
    dirty_plan: &DirtyExecutionPlan,
    cache_state: &CacheState,
    active_tiles: Option<&KeySet<TileCoord>>,
) -> (plan: CompositeNodePlan)
    ensures
        plan_model(plan) == planned(
            *node,
            dirty_plan@,
            crate::collections::viewed(cache_state.leaf_draw_cache@),
            cache_state.group_target_cache@.dom(),
            crate::renderer::planning::selected(active_tiles),
        ),
    decreases node,
{
    let ghost leaves = crate::collections::viewed(cache_state.leaf_draw_cache@);
    let ghost cached_groups = cache_state.group_target_cache@.dom();
    let ghost active = crate::renderer::planning::selected(active_tiles);
    match node {
        RenderNodeSnapshot::Leaf { layer_id, blend, image_handle } => {
            let image_source = ImageSource::LayerImage { image_handle: *image_handle };
            let leaf_dirty_tiles = dirty_plan.dirty_leaf_tiles.get(*layer_id);
            let cached_leaf = cache_state.leaf_draw_cache.get(*layer_id);
            let should_rebuild = leaf_should_rebuild(
                leaf_dirty_tiles,
                cached_leaf,
                *blend,
                image_source,
            );
            proof {
                if cached_leaf is Some {
                    assert(leaves[*layer_id] == cached_leaf->0@);
                }
                if leaf_dirty_tiles is Some {
                    assert(dirty_plan@.leaves[*layer_id] == leaf_dirty_tiles->0@);
                }
                assert(entry(dirty_plan@.leaves, *layer_id) == crate::renderer::planning::mask_of(
                    leaf_dirty_tiles,
                ));
            }
            CompositeNodePlan::Leaf {
                layer_id: *layer_id,
                blend: *blend,
                image_source,
                should_rebuild,
                dirty_tiles: copy_mask(leaf_dirty_tiles),
                visible_tiles: copy_selection(active_tiles),
            }
        },
        RenderNodeSnapshot::Group { group_id, blend, children } => {
            let cache_missing = !cache_state.group_target_cache.contains_key(*group_id);
            let group_dirty = dirty_plan.dirty_group_tiles.get(*group_id);
            let decision = GroupDecisionEngine::default().decide(
                dirty_plan.force_group_rerender,
                cache_missing,
                group_dirty,
                active_tiles,
            );
            proof {
                if group_dirty is Some {
                    assert(dirty_plan@.groups[*group_id] == group_dirty->0@);
                }
                assert(entry(dirty_plan@.groups, *group_id) == crate::renderer::planning::mask_of(
                    group_dirty,
                ));
            }
            let mut child_plans: Vec<CompositeNodePlan> = Vec::new();
            let emit_tiles: Option<KeySet<TileCoord>>;
            match decision.mode {
                GroupRerenderMode::Rerender => {
                    let tiles = decision.rerender_tiles.as_ref();
                    let ghost chosen = decision@.tiles;
                    let mut index: usize = 0;
                    while index < children.len()
                        invariant
                            index <= children@.len(),
                            *node matches RenderNodeSnapshot::Group { children: c, .. } && c
                                == children,
                            chosen == crate::renderer::planning::selected(tiles),
                            leaves == crate::collections::viewed(cache_state.leaf_draw_cache@),
                            cached_groups == cache_state.group_target_cache@.dom(),
                            plan_models(child_plans@) == planned_all(
                                children@.take(index as int),
                                dirty_plan@,
                                leaves,
                                cached_groups,
                                chosen,
                            ),
                        decreases children@.len() - index,
                    {
                        proof {
                            assert(decreases_to!(*node => children@[index as int]));
                        }
                        let plan = build_composite_node_plan(
                            &children[index],
                            dirty_plan,
                            cache_state,
                            tiles,
                        );
                        let ghost before = child_plans@;
                        child_plans.push(plan);
                        proof {
                            assert(children@.take(index + 1).drop_last() =~= children@.take(
                                index as int,
                            ));
                            assert(child_plans@.drop_last() =~= before);
                        }
                        index += 1;
                    }
                    assert(children@.take(index as int) =~= children@);
                    emit_tiles = copy_selection(decision.rerender_tiles.as_ref());
                },
                GroupRerenderMode::UseCache => {
                    emit_tiles = copy_selection(active_tiles);
                },
            }
            CompositeNodePlan::Group {
                group_id: *group_id,
                blend: *blend,
                decision,
                emit_tiles,
                children: child_plans,
            }
        },
    }
}

/// The plan asks for no cached group that is missing: a group is drawn from
/// its cache only if it has one.
pub open spec fn caches_suffice(plan: PlanModel, cached_groups: Set<u64>) -> bool
    decreases plan,
{
    match plan {
        PlanModel::Leaf { .. } => true,
        PlanModel::Group { group_id, decision, children, .. } => if decision.mode is UseCache
            || decision.tiles == Some(Set::<TileCoord>::empty()) {
            cached_groups.contains(group_id)
        } else {
            all_caches_suffice(children, cached_groups)
        },
    }
}

/// As `caches_suffice`, for several plans.
pub open spec fn all_caches_suffice(plans: Seq<PlanModel>, cached_groups: Set<u64>) -> bool
    decreases plans,
{
    plans.len() > 0 ==> all_caches_suffice(plans.drop_last(), cached_groups) && caches_suffice(
        plans.last(),
        cached_groups,
    )
}

/// A plan never draws from a cache that is missing, as long as some tile is
/// concerned at all.
pub proof fn lemma_plan_uses_existing_caches(
    node: RenderNodeSnapshot,
    dirty: DirtyPlanModel,
    leaves: Map<u64, LeafModel>,
    cached_groups: Set<u64>,
    active: TileSelection,
)
    requires
        active != Some(Set::<TileCoord>::empty()),
    ensures
        caches_suffice(planned(node, dirty, leaves, cached_groups, active), cached_groups),
    decreases node,
{
    match node {
        RenderNodeSnapshot::Leaf { .. } => {},
        RenderNodeSnapshot::Group { group_id, children, .. } => {
            let decision = crate::renderer::planning::decided(
                dirty.force_group_rerender,
                !cached_groups.contains(group_id),
                entry(dirty.groups, group_id),
                active,
            );
            if decision.mode is Rerender && decision.tiles != Some(Set::<TileCoord>::empty()) {
                lemma_plans_use_existing_caches(
                    children@,
                    dirty,
                    leaves,
                    cached_groups,
                    decision.tiles,
                );
            }
        },
    }
}

proof fn lemma_plans_use_existing_caches(
    nodes: Seq<RenderNodeSnapshot>,
    dirty: DirtyPlanModel,
    leaves: Map<u64, LeafModel>,
    cached_groups: Set<u64>,
    active: TileSelection,
)
    requires
        active != Some(Set::<TileCoord>::empty()),
    ensures
        all_caches_suffice(
            planned_all(nodes, dirty, leaves, cached_groups, active),
            cached_groups,
        ),
    decreases nodes,
{
    if nodes.len() > 0 {
        lemma_plans_use_existing_caches(nodes.drop_last(), dirty, leaves, cached_groups, active);
        lemma_plan_uses_existing_caches(nodes.last(), dirty, leaves, cached_groups, active);
        let plans = planned_all(nodes, dirty, leaves, cached_groups, active);
        assert(plans.drop_last() =~= planned_all(
            nodes.drop_last(),
            dirty,
            leaves,
            cached_groups,
            active,
        ));
    }
}

/// A tree of which nothing is dirty, whose groups are all cached, is drawn from
/// the cache of its root.
pub proof fn lemma_clean_group_is_drawn_from_cache(
    node: RenderNodeSnapshot,
    dirty: DirtyPlanModel,
    leaves: Map<u64, LeafModel>,
    cached_groups: Set<u64>,
    active: TileSelection,
)
    requires
        node matches RenderNodeSnapshot::Group { group_id, .. } && cached_groups.contains(group_id)
            && !dirty.groups.dom().contains(group_id),
        !dirty.force_group_rerender,
    ensures
        planned(node, dirty, leaves, cached_groups, active) matches PlanModel::Group {
            decision,
            children,
            emit_tiles,
            ..
        } && decision.mode is UseCache && children.len() == 0 && emit_tiles == active,
{
}

} // verus!
