//! From draw instances to draw calls.
use vstd::prelude::*;

use crate::collections::KeySet;
use crate::render_protocol::{BlendModePipelineStrategy, RenderStepSupportMatrix};
use crate::renderer::dirty::TileCoord;
use crate::renderer::draw_builders::{tile_coord_from_draw_instance, TileDrawInstance};
use crate::renderer::planning::TileSelection;

verus! {

/// The instances that draw one of the selected tiles, in order.
pub open spec fn effective(
    instances: Seq<TileDrawInstance>,
    visible: TileSelection,
) -> Seq<TileDrawInstance>
    decreases instances.len(),
{
    match visible {
        None => instances,
        Some(tiles) => if instances.len() == 0 {
            instances
        } else {
            let earlier = effective(instances.drop_last(), visible);
            if tiles.contains(crate::renderer::draw_builders::coord_of(instances.last())) {
                earlier.push(instances.last())
            } else {
                earlier
            }
        },
    }
}

/// The instances that draw one of the visible tiles.
pub fn resolve_effective_draw_instances(
    draw_instances: &Vec<TileDrawInstance>,
    visible_tiles: Option<&KeySet<TileCoord>>,
) -> (instances: Vec<TileDrawInstance>)
    ensures
        instances@ == effective(
            draw_instances@,
            crate::renderer::planning::selected(visible_tiles),
        ),
{
    let ghost visible = crate::renderer::planning::selected(visible_tiles);
    let mut instances: Vec<TileDrawInstance> = Vec::new();
    let mut index: usize = 0;
    assert(effective(draw_instances@.take(0), visible) =~= instances@);
    while index < draw_instances.len()
        invariant
            index <= draw_instances@.len(),
            visible == crate::renderer::planning::selected(visible_tiles),
            instances@ == effective(draw_instances@.take(index as int), visible),
        decreases draw_instances@.len() - index,
    {
        let instance = draw_instances[index];
        let shown = match visible_tiles {
            Some(tiles) => tiles.contains(tile_coord_from_draw_instance(&instance)),
            None => true,
        };
        proof {
            let longer = draw_instances@.take(index + 1);
            assert(longer.drop_last() =~= draw_instances@.take(index as int));
            assert(longer =~= longer.drop_last().push(instance));
        }
        if shown {
            instances.push(instance);
        }
        index += 1;
    }
    assert(draw_instances@.take(index as int) =~= draw_instances@);
    instances
}

/// No two instances draw the same tile.
pub open spec fn tiles_unique(instances: Seq<TileDrawInstance>) -> bool {
    forall|i: int, j: int|
        0 <= i < j < instances.len() ==> crate::renderer::draw_builders::coord_of(
            #[trigger] instances[i],
        ) != crate::renderer::draw_builders::coord_of(#[trigger] instances[j])
}

/// Looks for an instance that draws a tile which an earlier one draws already.
pub fn duplicated_tile_coord(effective_instances: &Vec<TileDrawInstance>) -> (found: Option<usize>)
    ensures
        match found {
            None => tiles_unique(effective_instances@),
            Some(index) => index < effective_instances@.len() && tiles_unique(
                effective_instances@.take(index as int),
            ) && exists|i: int|
                0 <= i < index && crate::renderer::draw_builders::coord_of(
                    #[trigger] effective_instances@[i],
                ) == crate::renderer::draw_builders::coord_of(effective_instances@[index as int]),
        },
{
    let mut seen: KeySet<TileCoord> = KeySet::new();
    let mut index: usize = 0;
    while index < effective_instances.len()
        invariant
            index <= effective_instances@.len(),
            tiles_unique(effective_instances@.take(index as int)),
            forall|coord: TileCoord| #[trigger]
                seen@.contains(coord) <==> exists|i: int|
                    0 <= i < index && crate::renderer::draw_builders::coord_of(
                        #[trigger] effective_instances@[i],
                    ) == coord,
        decreases effective_instances@.len() - index,
    {
        let coord = tile_coord_from_draw_instance(&effective_instances[index]);
        let ghost before = seen@;
        if !seen.insert(coord) {
            return Some(index);
        }
        proof {
            let shorter = effective_instances@.take(index as int);
            let longer = effective_instances@.take(index + 1);
            assert forall|i: int, j: int| 0 <= i < j < longer.len() implies
                crate::renderer::draw_builders::coord_of(#[trigger] longer[i])
                != crate::renderer::draw_builders::coord_of(#[trigger] longer[j]) by {
                if j == index {
                    assert(longer[i] == effective_instances@[i]);
                    assert(!before.contains(coord));
                } else {
                    assert(longer[i] == shorter[i] && longer[j] == shorter[j]);
                }
            }
            assert forall|c: TileCoord| #[trigger] seen@.contains(c) <==> exists|i: int|
                0 <= i < index + 1 && crate::renderer::draw_builders::coord_of(
                    #[trigger] effective_instances@[i],
                ) == c by {
                if c == coord {
                    assert(crate::renderer::draw_builders::coord_of(
                        effective_instances@[index as int],
                    ) == c);
                } else if before.contains(c) {
                    let i = choose|i: int|
                        0 <= i < index && crate::renderer::draw_builders::coord_of(
                            #[trigger] effective_instances@[i],
                        ) == c;
                    assert(0 <= i < index + 1);
                }
            }
        }
        index += 1;
    }
    assert(effective_instances@.take(index as int) =~= effective_instances@);
    None
}

/// What the positions of a draw call relate to: the document, or the slots of a
/// group's texture.
#[derive(Debug, Clone, Copy, PartialEq, Eq, Structural)]
pub enum TileCompositeSpace {
    Content,
    Slot,
}

/// A pipeline that composes tiles.
#[derive(Debug, Clone, Copy, PartialEq, Eq, Structural)]
pub enum CompositePipeline {
    AlphaContent,
    MultiplyContent,
    AlphaSlot,
    MultiplySlot,
}

/// The pipeline for a strategy, unless the strategy is not supported.
pub open spec fn pipeline_for(
    strategy: BlendModePipelineStrategy,
    composite_space: TileCompositeSpace,
) -> Option<CompositePipeline> {
    match (strategy, composite_space) {
        (
            BlendModePipelineStrategy::SurfaceAlphaBlend,
            TileCompositeSpace::Content,
        ) => Some(CompositePipeline::AlphaContent),
        (
            BlendModePipelineStrategy::SurfaceMultiplyBlend,
            TileCompositeSpace::Content,
        ) => Some(CompositePipeline::MultiplyContent),
        (
            BlendModePipelineStrategy::SurfaceAlphaBlend,
            TileCompositeSpace::Slot,
        ) => Some(CompositePipeline::AlphaSlot),
        (
            BlendModePipelineStrategy::SurfaceMultiplyBlend,
            TileCompositeSpace::Slot,
        ) => Some(CompositePipeline::MultiplySlot),
        (BlendModePipelineStrategy::Unsupported, _) => None,
    }
}

/// Consecutive instances that one call draws: from `start` up to `end`.
#[derive(Debug, Clone, Copy, PartialEq, Eq, Structural)]
pub struct DrawRun {
    pub pipeline: CompositePipeline,
    pub start: u32,
    pub end: u32,
}

/// A run draws instances of one blend mode, with the pipeline for it.
pub open spec fn run_fits(
    run: DrawRun,
    instances: Seq<TileDrawInstance>,
    composite_space: TileCompositeSpace,
    support: RenderStepSupportMatrix,
) -> bool {
    &&& run.start < run.end <= instances.len()
    &&& Some(run.pipeline) == pipeline_for(
        support.strategy_of(instances[run.start as int].blend_mode),
        composite_space,
    )
    &&& forall|i: int|
        run.start <= i < run.end ==> (#[trigger] instances[i]).blend_mode
            == instances[run.start as int].blend_mode
}

/// The runs draw the first `count` instances: each once, in order, in as few
/// runs as the blend modes allow.
pub open spec fn runs_cover(
    runs: Seq<DrawRun>,
    instances: Seq<TileDrawInstance>,
    composite_space: TileCompositeSpace,
    support: RenderStepSupportMatrix,
    count: int,
) -> bool
    decreases runs.len(),
{
    if runs.len() == 0 {
        count == 0
    } else {
        let last = runs.last();
        &&& run_fits(last, instances, composite_space, support)
        &&& last.end == count
        &&& last.start > 0 ==> instances[last.start as int].blend_mode != instances[last.start
            - 1].blend_mode
        &&& runs_cover(runs.drop_last(), instances, composite_space, support, last.start as int)
    }
}

/// The runs that draw some instances.
pub fn draw_instance_runs(
    effective_instances: &Vec<TileDrawInstance>,
    composite_space: TileCompositeSpace,
    support_matrix: RenderStepSupportMatrix,
) -> (runs: Vec<DrawRun>)
    requires
        effective_instances@.len() <= u32::MAX,
        forall|i: int|
            0 <= i < effective_instances@.len() ==> !(support_matrix.strategy_of(
                (#[trigger] effective_instances@[i]).blend_mode,
            ) is Unsupported),
    ensures
        runs_cover(
            runs@,
            effective_instances@,
            composite_space,
            support_matrix,
            effective_instances@.len() as int,
        ),
{
    let mut runs: Vec<DrawRun> = Vec::new();
    let mut run_start: usize = 0;
    while run_start < effective_instances.len()
        invariant
            run_start <= effective_instances@.len() <= u32::MAX,
            forall|i: int|
                0 <= i < effective_instances@.len() ==> !(support_matrix.strategy_of(
                    (#[trigger] effective_instances@[i]).blend_mode,
                ) is Unsupported),
            runs_cover(
                runs@,
                effective_instances@,
                composite_space,
                support_matrix,
                run_start as int,
            ),
            0 < run_start < effective_instances@.len()
                ==> effective_instances@[run_start as int].blend_mode
                != effective_instances@[run_start - 1].blend_mode,
        decreases effective_instances@.len() - run_start,
    {
        let blend_mode = effective_instances[run_start].blend_mode;
        let mut run_end: usize = run_start + 1;
        while run_end < effective_instances.len() && effective_instances[run_end].blend_mode
            == blend_mode
            invariant
                run_start < run_end <= effective_instances@.len() <= u32::MAX,
                blend_mode == effective_instances@[run_start as int].blend_mode,
                forall|i: int|
                    run_start <= i < run_end ==> (#[trigger] effective_instances@[i]).blend_mode
                        == blend_mode,
            decreases effective_instances@.len() - run_end,
        {
            run_end += 1;
        }
        assert(!(support_matrix.strategy_of(effective_instances@[run_start as int].blend_mode) is
            Unsupported));
        let pipeline = match (support_matrix.blend_strategy(blend_mode), composite_space) {
            (
                BlendModePipelineStrategy::SurfaceMultiplyBlend,
                TileCompositeSpace::Content,
            ) => CompositePipeline::MultiplyContent,
            (
                BlendModePipelineStrategy::SurfaceMultiplyBlend,
                TileCompositeSpace::Slot,
            ) => CompositePipeline::MultiplySlot,
            (_, TileCompositeSpace::Content) => CompositePipeline::AlphaContent,
            (_, TileCompositeSpace::Slot) => CompositePipeline::AlphaSlot,
        };
        let run = DrawRun { pipeline, start: run_start as u32, end: run_end as u32 };
        let ghost before = runs@;
        runs.push(run);
        proof {
            assert(run_fits(run, effective_instances@, composite_space, support_matrix));
            assert(runs@.drop_last() =~= before);
        }
        run_start = run_end;
    }
    runs
}

/// Every instance is drawn by a run, with the pipeline for its blend mode.
pub proof fn lemma_each_instance_is_drawn(
    runs: Seq<DrawRun>,
    instances: Seq<TileDrawInstance>,
    composite_space: TileCompositeSpace,
    support: RenderStepSupportMatrix,
    count: int,
    index: int,
)
    requires
        runs_cover(runs, instances, composite_space, support, count),
        0 <= index < count,
    ensures
        exists|k: int|
            0 <= k < runs.len() && (#[trigger] runs[k]).start <= index < runs[k].end && Some(
                runs[k].pipeline,
            ) == pipeline_for(support.strategy_of(instances[index].blend_mode), composite_space),
    decreases runs.len(),
{
    let last = runs.last();
    if last.start <= index {
        assert(runs[runs.len() - 1] == last);
        assert(instances[index].blend_mode == instances[last.start as int].blend_mode);
    } else {
        let earlier = runs.drop_last();
        lemma_each_instance_is_drawn(
            earlier,
            instances,
            composite_space,
            support,
            last.start as int,
            index,
        );
        let k = choose|k: int|
            0 <= k < earlier.len() && (#[trigger] earlier[k]).start <= index < earlier[k].end
                && Some(earlier[k].pipeline) == pipeline_for(
                support.strategy_of(instances[index].blend_mode),
                composite_space,
            );
        assert(runs[k] == earlier[k]);
    }
}

/// No instance is drawn by two runs: each run ends before the next one starts.
pub proof fn lemma_runs_do_not_overlap(
    runs: Seq<DrawRun>,
    instances: Seq<TileDrawInstance>,
    composite_space: TileCompositeSpace,
    support: RenderStepSupportMatrix,
    count: int,
    k: int,
    l: int,
)
    requires
        runs_cover(runs, instances, composite_space, support, count),
        0 <= k < l < runs.len(),
    ensures
        runs[k].end <= runs[l].start,
        runs[l].end <= count,
    decreases runs.len(),
{
    reveal_with_fuel(runs_cover, 2);
    let last = runs.last();
    let earlier = runs.drop_last();
    if l < earlier.len() {
        lemma_runs_do_not_overlap(
            earlier,
            instances,
            composite_space,
            support,
            last.start as int,
            k,
            l,
        );
    } else if k < earlier.len() - 1 {
        lemma_runs_do_not_overlap(
            earlier,
            instances,
            composite_space,
            support,
            last.start as int,
            k,
            earlier.len() - 1,
        );
        assert(run_fits(earlier.last(), instances, composite_space, support));
    }
}

/// The least power of two that is not below `least`.
pub open spec fn is_capacity_for(capacity: int, least: int) -> bool {
    &&& capacity >= least
    &&& exists|k: nat| capacity == #[trigger] vstd::arithmetic::power2::pow2(k)
    &&& capacity > 1 ==> capacity < 2 * least
}

/// The capacity that a buffer of instances needs. A buffer that is large enough
/// stays as it is, and else grows to a power of two. There is no capacity if
/// that power does not fit.
pub fn tile_instance_capacity(
    required_len: usize,
    current_capacity: usize,
    initial_capacity: usize,
) -> (capacity: Option<usize>)
    ensures
        required_len <= current_capacity ==> capacity == Some(current_capacity),
        required_len > current_capacity ==> {
            let least = if required_len >= initial_capacity {
                required_len as int
            } else {
                initial_capacity as int
            };
            match capacity {
                Some(size) => is_capacity_for(size as int, least),
                None => forall|size: int| is_capacity_for(size, least) ==> size > usize::MAX,
            }
        },
{
    if required_len <= current_capacity {
        return Some(current_capacity);
    }
    let least: usize = if required_len >= initial_capacity {
        required_len
    } else {
        initial_capacity
    };
    let mut capacity: usize = 1;
    let ghost mut exponent: nat = 0;
    proof {
        vstd::arithmetic::power2::lemma2_to64();
    }
    while capacity < least
        invariant
            capacity >= 1,
            capacity == vstd::arithmetic::power2::pow2(exponent),
            capacity > 1 ==> capacity < 2 * least,
            required_len > current_capacity,
            least == if required_len >= initial_capacity {
                required_len as int
            } else {
                initial_capacity as int
            },
        decreases usize::MAX - capacity,
    {
        proof {
            vstd::arithmetic::power2::lemma_pow2_unfold((exponent + 1) as nat);
        }
        if capacity > usize::MAX / 2 {
            proof {
                assert forall|size: int| is_capacity_for(size, least as int) implies size
                    > usize::MAX by {
                    let k = choose|k: nat| size == #[trigger] vstd::arithmetic::power2::pow2(k);
                    if k <= exponent {
                        if k < exponent {
                            vstd::arithmetic::power2::lemma_pow2_strictly_increases(k, exponent);
                        }
                    } else if k > exponent + 1 {
                        vstd::arithmetic::power2::lemma_pow2_strictly_increases(
                            (exponent + 1) as nat,
                            k,
                        );
                    }
                }
            }
            return None;
        }
        capacity = capacity * 2;
        proof {
            exponent = exponent + 1;
        }
    }
    Some(capacity)
}

} // verus!
