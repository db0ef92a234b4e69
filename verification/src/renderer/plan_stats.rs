//! Counting what a composite plan does.
use vstd::prelude::*;

use crate::renderer::composite_plan::{CompositeNodePlan, PlanModel};
use crate::renderer::dirty::{DirtyTileMask, TileMaskModel};
use crate::renderer::planning::GroupRerenderMode;

verus! {

/// The nodes and tiles of a plan, by what is done with them.
#[derive(Debug, Clone, Copy, PartialEq, Eq, Structural)]
pub struct CompositePlanPerfStats {
    pub leaf_nodes: usize,
    pub rebuilt_leaf_nodes: usize,
    pub rebuilt_leaf_partial_tiles: usize,
    pub rebuilt_leaf_unknown_tiles: usize,
    pub group_nodes: usize,
    pub rerender_group_nodes: usize,
    pub rerender_group_tiles: usize,
    pub cache_group_nodes: usize,
}

/// The same counts, without bound.
#[verifier::ext_equal]
pub struct PlanCounts {
    pub leaf_nodes: int,
    pub rebuilt_leaf_nodes: int,
    pub rebuilt_leaf_partial_tiles: int,
    pub rebuilt_leaf_unknown_tiles: int,
    pub group_nodes: int,
    pub rerender_group_nodes: int,
    pub rerender_group_tiles: int,
    pub cache_group_nodes: int,
}

impl View for CompositePlanPerfStats {
    type V = PlanCounts;

    open spec fn view(&self) -> PlanCounts {
        PlanCounts {
            leaf_nodes: self.leaf_nodes as int,
            rebuilt_leaf_nodes: self.rebuilt_leaf_nodes as int,
            rebuilt_leaf_partial_tiles: self.rebuilt_leaf_partial_tiles as int,
            rebuilt_leaf_unknown_tiles: self.rebuilt_leaf_unknown_tiles as int,
            group_nodes: self.group_nodes as int,
            rerender_group_nodes: self.rerender_group_nodes as int,
            rerender_group_tiles: self.rerender_group_tiles as int,
            cache_group_nodes: self.cache_group_nodes as int,
        }
    }
}

impl PlanCounts {
    pub open spec fn zero() -> PlanCounts {
        PlanCounts {
            leaf_nodes: 0,
            rebuilt_leaf_nodes: 0,
            rebuilt_leaf_partial_tiles: 0,
            rebuilt_leaf_unknown_tiles: 0,
            group_nodes: 0,
            rerender_group_nodes: 0,
            rerender_group_tiles: 0,
            cache_group_nodes: 0,
        }
    }

    pub open spec fn plus(&self, more: PlanCounts) -> PlanCounts {
        PlanCounts {
            leaf_nodes: self.leaf_nodes + more.leaf_nodes,
            rebuilt_leaf_nodes: self.rebuilt_leaf_nodes + more.rebuilt_leaf_nodes,
            rebuilt_leaf_partial_tiles: self.rebuilt_leaf_partial_tiles
                + more.rebuilt_leaf_partial_tiles,
            rebuilt_leaf_unknown_tiles: self.rebuilt_leaf_unknown_tiles
                + more.rebuilt_leaf_unknown_tiles,
            group_nodes: self.group_nodes + more.group_nodes,
            rerender_group_nodes: self.rerender_group_nodes + more.rerender_group_nodes,
            rerender_group_tiles: self.rerender_group_tiles + more.rerender_group_tiles,
            cache_group_nodes: self.cache_group_nodes + more.cache_group_nodes,
        }
    }

    /// No count is negative.
    pub open spec fn counts(&self) -> bool {
        &&& self.leaf_nodes >= 0
        &&& self.rebuilt_leaf_nodes >= 0
        &&& self.rebuilt_leaf_partial_tiles >= 0
        &&& self.rebuilt_leaf_unknown_tiles >= 0
        &&& self.group_nodes >= 0
        &&& self.rerender_group_nodes >= 0
        &&& self.rerender_group_tiles >= 0
        &&& self.cache_group_nodes >= 0
    }

    /// Every count fits.
    pub open spec fn fits(&self) -> bool {
        &&& self.leaf_nodes <= usize::MAX
        &&& self.rebuilt_leaf_nodes <= usize::MAX
        &&& self.rebuilt_leaf_partial_tiles <= usize::MAX
        &&& self.rebuilt_leaf_unknown_tiles <= usize::MAX
        &&& self.group_nodes <= usize::MAX
        &&& self.rerender_group_nodes <= usize::MAX
        &&& self.rerender_group_tiles <= usize::MAX
        &&& self.cache_group_nodes <= usize::MAX
    }
}

/// The counts of one node, without its children.
pub open spec fn node_counts(plan: PlanModel) -> PlanCounts {
    match plan {
        PlanModel::Leaf { should_rebuild, dirty_tiles, .. } => {
            let partial = dirty_tiles matches Some(TileMaskModel::Partial(_));
            PlanCounts {
                leaf_nodes: 1,
                rebuilt_leaf_nodes: if should_rebuild {
                    1
                } else {
                    0
                },
                rebuilt_leaf_partial_tiles: match dirty_tiles {
                    Some(TileMaskModel::Partial(tiles)) => if should_rebuild {
                        tiles.len() as int
                    } else {
                        0
                    },
                    _ => 0,
                },
                rebuilt_leaf_unknown_tiles: if should_rebuild && !partial {
                    1
                } else {
                    0
                },
                ..PlanCounts::zero()
            }
        },
        PlanModel::Group { decision, .. } => if decision.mode is Rerender {
            PlanCounts {
                group_nodes: 1,
                rerender_group_nodes: 1,
                rerender_group_tiles: match decision.tiles {
                    Some(tiles) => tiles.len() as int,
                    None => 0,
                },
                ..PlanCounts::zero()
            }
        } else {
            PlanCounts { group_nodes: 1, cache_group_nodes: 1, ..PlanCounts::zero() }
        },
    }
}

/// The counts of a plan: of its node and everything below.
pub open spec fn plan_counts(plan: PlanModel) -> PlanCounts
    decreases plan,
{
    match plan {
        PlanModel::Leaf { .. } => node_counts(plan),
        PlanModel::Group { children, .. } => node_counts(plan).plus(all_counts(children)),
    }
}

/// The counts of several plans together.
pub open spec fn all_counts(plans: Seq<PlanModel>) -> PlanCounts
    decreases plans,
{
    if plans.len() == 0 {
        PlanCounts::zero()
    } else {
        all_counts(plans.drop_last()).plus(plan_counts(plans.last()))
    }
}

proof fn lemma_plan_counts(plan: PlanModel)
    ensures
        plan_counts(plan).counts(),
    decreases plan,
{
    if let PlanModel::Group { children, .. } = plan {
        lemma_all_counts(children);
    }
}

proof fn lemma_all_counts(plans: Seq<PlanModel>)
    ensures
        all_counts(plans).counts(),
    decreases plans,
{
    if plans.len() > 0 {
        lemma_all_counts(plans.drop_last());
        lemma_plan_counts(plans.last());
    }
}

proof fn lemma_counts_grow(plans: Seq<PlanModel>, count: int)
    requires
        0 <= count <= plans.len(),
    ensures
        forall|base: PlanCounts|
            base.plus(all_counts(plans)).fits() ==> #[trigger] base.plus(
                all_counts(plans.take(count)),
            ).fits(),
    decreases plans.len(),
{
    if count == plans.len() {
        assert(plans.take(count) =~= plans);
    } else {
        let shorter = plans.drop_last();
        lemma_counts_grow(shorter, count);
        lemma_plan_counts(plans.last());
        assert(shorter.take(count) =~= plans.take(count));
        assert forall|base: PlanCounts|
            base.plus(all_counts(plans)).fits() implies #[trigger] base.plus(
            all_counts(plans.take(count)),
        ).fits() by {
            assert(base.plus(all_counts(shorter)).fits());
        }
    }
}

impl Default for CompositePlanPerfStats {
    fn default() -> (stats: Self)
        ensures
            stats@ == PlanCounts::zero(),
    {
        CompositePlanPerfStats {
            leaf_nodes: 0,
            rebuilt_leaf_nodes: 0,
            rebuilt_leaf_partial_tiles: 0,
            rebuilt_leaf_unknown_tiles: 0,
            group_nodes: 0,
            rerender_group_nodes: 0,
            rerender_group_tiles: 0,
            cache_group_nodes: 0,
        }
    }
}

/// Adds the counts of a plan to `stats`.
pub fn collect_composite_plan_perf_stats(
    node: &CompositeNodePlan,
    stats: &mut CompositePlanPerfStats,
)
    requires
        old(stats)@.plus(
            plan_counts(crate::renderer::composite_plan::plan_model(*node)),
        ).fits(),
    ensures
        final(stats)@ == old(stats)@.plus(
            plan_counts(crate::renderer::composite_plan::plan_model(*node)),
        ),
    decreases node,
{
    let ghost start = stats@;
    match node {
        CompositeNodePlan::Leaf { should_rebuild, dirty_tiles, .. } => {
            stats.leaf_nodes = stats.leaf_nodes + 1;
            if *should_rebuild {
                stats.rebuilt_leaf_nodes = stats.rebuilt_leaf_nodes + 1;
                match dirty_tiles {
                    Some(DirtyTileMask::Partial(tiles)) => {
                        stats.rebuilt_leaf_partial_tiles = stats.rebuilt_leaf_partial_tiles
                            + tiles.len();
                    },
                    _ => {
                        stats.rebuilt_leaf_unknown_tiles = stats.rebuilt_leaf_unknown_tiles + 1;
                    },
                }
            }
        },
        CompositeNodePlan::Group { decision, children, .. } => {
            let ghost models = crate::renderer::composite_plan::plan_models(children@);
            let ghost own = node_counts(crate::renderer::composite_plan::plan_model(*node));
            proof {
                crate::renderer::composite_plan::lemma_plan_models(children@);
                lemma_all_counts(models);
            }
            stats.group_nodes = stats.group_nodes + 1;
            match decision.mode {
                GroupRerenderMode::Rerender => {
                    stats.rerender_group_nodes = stats.rerender_group_nodes + 1;
                    match &decision.rerender_tiles {
                        Some(tiles) => {
                            stats.rerender_group_tiles = stats.rerender_group_tiles + tiles.len();
                        },
                        None => {},
                    }
                },
                GroupRerenderMode::UseCache => {
                    stats.cache_group_nodes = stats.cache_group_nodes + 1;
                },
            }
            let ghost base = start.plus(own);
            proof {
                assert(stats@ =~= base.plus(all_counts(models.take(0))));
                assert(start.plus(own.plus(all_counts(models))) =~= base.plus(all_counts(models)));
            }
            let mut index: usize = 0;
            while index < children.len()
                invariant
                    index <= children@.len(),
                    *node matches CompositeNodePlan::Group { children: c, .. } && c == children,
                    models == crate::renderer::composite_plan::plan_models(children@),
                    models.len() == children@.len(),
                    forall|i: int|
                        0 <= i < children@.len() ==> #[trigger] models[i]
                            == crate::renderer::composite_plan::plan_model(children@[i]),
                    base.plus(all_counts(models)).fits(),
                    stats@ == base.plus(all_counts(models.take(index as int))),
                decreases children@.len() - index,
            {
                proof {
                    assert(decreases_to!(*node => children@[index as int]));
                    lemma_counts_grow(models, index + 1);
                    let longer = models.take(index + 1);
                    assert(longer.drop_last() =~= models.take(index as int));
                    assert(base.plus(all_counts(longer)).fits());
                    assert(base.plus(all_counts(longer)) =~= stats@.plus(
                        plan_counts(models[index as int]),
                    ));
                }
                collect_composite_plan_perf_stats(&children[index], stats);
                index += 1;
            }
            proof {
                assert(models.take(index as int) =~= models);
            }
        },
    }
    proof {
        assert(stats@ =~= start.plus(
            plan_counts(crate::renderer::composite_plan::plan_model(*node)),
        ));
    }
}

} // verus!
