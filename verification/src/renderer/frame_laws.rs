//! What holds of the cached groups and their tiles from frame to frame.
use vstd::prelude::*;

use crate::render_protocol::RenderOp;
use crate::renderer::composite::CompositeModel;
use crate::renderer::group_cache::GroupTargetCacheEntry;
use crate::renderer::group_tiles::GroupTilesModel;
use crate::renderer::view_ops::ViewSide;
use crate::tiles::TileKey;

verus! {

broadcast use crate::collections::group_viewed;

/// The state in which a frame is composed, with these tiles of the group atlas.
pub open spec fn composed_from(side: ViewSide, tiles: GroupTilesModel) -> CompositeModel {
    CompositeModel {
        leaves: crate::collections::viewed(side.leaves),
        groups: crate::collections::viewed(side.groups),
        addresses: tiles.addresses,
        fresh: tiles.fresh,
        actions: Seq::empty(),
    }
}

/// The tiles after those of cached groups have been given back, one group after
/// the other.
pub open spec fn groups_released(
    tiles: GroupTilesModel,
    groups: Map<u64, GroupTargetCacheEntry>,
    ids: Seq<u64>,
) -> GroupTilesModel
    decreases ids.len(),
{
    if ids.len() == 0 {
        tiles
    } else {
        groups_released(tiles, groups, ids.drop_last()).all_released(
            groups[ids.last()].image@.placed(),
        )
    }
}

/// The groups are all, or some, of those of another state.
pub open spec fn some_groups_of(less: ViewSide, more: ViewSide) -> bool {
    less.groups.submap_of(more.groups)
}

/// Fewer groups with the same tiles use them at fewer places.
proof fn lemma_fewer_groups(less: ViewSide, more: ViewSide, tiles: GroupTilesModel)
    requires
        composed_from(more, tiles).inv(),
        some_groups_of(less, more),
    ensures
        composed_from(less, tiles).inv(),
{
    let (before, after) = (composed_from(more, tiles), composed_from(less, tiles));
    assert forall|a: u64, i: int, key: TileKey| #[trigger] after.uses(a, i, key) implies
        before.uses(a, i, key) by {
        assert(less.groups.dom().contains(a));
    }
    assert forall|id: u64| #[trigger] after.groups.dom().contains(id) implies
        before.groups.dom().contains(id) && after.groups[id] == before.groups[id] by {
        assert(less.groups.dom().contains(id));
    }
    assert(after.tiles() == before.tiles());
}

/// Giving back the tiles of cached groups, each once and in any order, leaves the
/// others theirs.
proof fn lemma_others_keep_their_tiles(side: ViewSide, tiles: GroupTilesModel, ids: Seq<u64>)
    requires
        composed_from(side, tiles).inv(),
        ids.no_duplicates(),
        forall|i: int| 0 <= i < ids.len() ==> side.groups.dom().contains(#[trigger] ids[i]),
    ensures
        composed_from(
            ViewSide { groups: side.groups.remove_keys(ids.to_set()), ..side },
            groups_released(tiles, side.groups, ids),
        ).inv(),
    decreases ids.len(),
{
    if ids.len() == 0 {
        assert(side.groups.remove_keys(ids.to_set()) =~= side.groups);
    } else {
        let earlier = ids.drop_last();
        let id = ids.last();
        assert forall|i: int| 0 <= i < earlier.len() implies side.groups.dom().contains(
            #[trigger] earlier[i],
        ) by {
            assert(earlier[i] == ids[i]);
        }
        lemma_others_keep_their_tiles(side, tiles, earlier);
        let kept = ViewSide { groups: side.groups.remove_keys(earlier.to_set()), ..side };
        assert(!earlier.contains(id)) by {
            if earlier.contains(id) {
                let i = earlier.index_of(id);
                assert(ids[i] == ids[ids.len() - 1]);
            }
        }
        assert(side.groups.dom().contains(ids[ids.len() - 1]));
        let model = composed_from(kept, groups_released(tiles, side.groups, earlier));
        crate::renderer::composite::lemma_giving_up_a_group_leaves_the_others(model, id);
        assert(ids.to_set() =~= earlier.to_set().insert(id)) by {
            assert forall|other: u64| ids.contains(other) <==> earlier.contains(other) || other
                == id by {
                if ids.contains(other) {
                    let i = ids.index_of(other);
                    if i < earlier.len() {
                        assert(earlier[i] == other);
                    }
                }
                if earlier.contains(other) {
                    assert(ids[earlier.index_of(other)] == other);
                }
                assert(ids[ids.len() - 1] == id);
            }
        }
        assert(side.groups.remove_keys(ids.to_set()) =~= kept.groups.remove(id));
        let after = composed_from(
            ViewSide { groups: side.groups.remove_keys(ids.to_set()), ..side },
            groups_released(tiles, side.groups, ids),
        );
        let given_up = model.tiles().all_released(model.groups[id].image.placed());
        assert(after =~= (CompositeModel {
            groups: model.groups.remove(id),
            addresses: given_up.addresses,
            fresh: given_up.fresh,
            ..model
        }));
    }
}

/// Operations give cached groups up, and neither change nor add any.
pub proof fn lemma_operations_only_give_groups_up(side: ViewSide, operations: Seq<RenderOp>)
    ensures
        some_groups_of(side.applied_all(operations), side),
    decreases operations.len(),
{
    if operations.len() > 0 {
        let before = side.applied_all(operations.drop_last());
        lemma_operations_only_give_groups_up(side, operations.drop_last());
        let after = before.applied(operations.last());
        assert(some_groups_of(after, before));
        assert forall|id: u64| #[trigger] after.groups.dom().contains(id) implies
            side.groups.dom().contains(id) && after.groups[id] == side.groups[id] by {
            assert(before.groups.dom().contains(id));
        }
    }
}

/// What one of several operations gives up was cached before all of them, is
/// well-formed if what was cached then is, and is not cached after them.
pub proof fn lemma_groups_are_given_up_once(
    side: ViewSide,
    tiles: GroupTilesModel,
    operations: Seq<RenderOp>,
    at: int,
    id: u64,
)
    requires
        composed_from(side, tiles).inv(),
        0 <= at < operations.len(),
        side.applied_all(operations.take(at)).released_by(operations[at]).dom().contains(id),
    ensures
        side.groups.dom().contains(id),
        side.applied_all(operations.take(at)).released_by(operations[at])[id] == side.groups[id],
        side.groups[id].image@.inv(),
        !side.applied_all(operations).groups.dom().contains(id),
{
    lemma_operations_only_give_groups_up(side, operations.take(at));
    assert(composed_from(side, tiles).groups.dom().contains(id));
    lemma_given_up_stays_given_up(side, operations, at, id);
}

/// A group that an operation has given up stays given up.
proof fn lemma_given_up_stays_given_up(
    side: ViewSide,
    operations: Seq<RenderOp>,
    at: int,
    id: u64,
)
    requires
        0 <= at < operations.len(),
        side.applied_all(operations.take(at)).released_by(operations[at]).dom().contains(id),
    ensures
        !side.applied_all(operations).groups.dom().contains(id),
    decreases operations.len(),
{
    let earlier = operations.drop_last();
    let before = side.applied_all(earlier);
    let last = operations.last();
    assert(some_groups_of(before.applied(last), before));
    if at < earlier.len() {
        assert(earlier.take(at) =~= operations.take(at));
        lemma_given_up_stays_given_up(side, earlier, at, id);
    } else {
        assert(operations.take(at) =~= earlier);
    }
}

/// After any operations, and once the tiles of groups that they gave up have been
/// given back, each group once and in any order, frames can be composed as before.
pub proof fn lemma_operations_keep_frames_composable(
    side: ViewSide,
    tiles: GroupTilesModel,
    operations: Seq<RenderOp>,
    ids: Seq<u64>,
)
    requires
        composed_from(side, tiles).inv(),
        ids.no_duplicates(),
        forall|i: int|
            0 <= i < ids.len() ==> side.groups.dom().contains(#[trigger] ids[i])
                && !side.applied_all(operations).groups.dom().contains(ids[i]),
    ensures
        composed_from(
            side.applied_all(operations),
            groups_released(tiles, side.groups, ids),
        ).inv(),
{
    lemma_others_keep_their_tiles(side, tiles, ids);
    lemma_operations_only_give_groups_up(side, operations);
    let after = side.applied_all(operations);
    let kept = ViewSide { groups: side.groups.remove_keys(ids.to_set()), ..side };
    assert forall|id: u64| #[trigger] after.groups.dom().contains(id) implies
        kept.groups.dom().contains(id) && kept.groups[id] == after.groups[id] by {
        if ids.contains(id) {
            assert(ids[ids.index_of(id)] == id);
        }
    }
    lemma_fewer_groups(after, kept, groups_released(tiles, side.groups, ids));
}

/// Operations leave the index of every layer that stays cached fitting its
/// instances.
pub proof fn lemma_operations_keep_layers_indexed(side: ViewSide, operations: Seq<RenderOp>)
    requires
        crate::renderer::draw_builders::all_indexed(side.leaves),
    ensures
        crate::renderer::draw_builders::all_indexed(side.applied_all(operations).leaves),
    decreases operations.len(),
{
    if operations.len() > 0 {
        let before = side.applied_all(operations.drop_last());
        let after = before.applied(operations.last());
        lemma_operations_keep_layers_indexed(side, operations.drop_last());
        assert forall|layer_id: u64| #[trigger] after.leaves.dom().contains(layer_id) implies
            after.leaves[layer_id].inv() by {
            assert(before.leaves.dom().contains(layer_id));
        }
    }
}

/// A renderer that has cached nothing yet can compose with any tiles of which
/// none is free twice, or both free and in use.
pub proof fn lemma_nothing_cached_is_composable(side: ViewSide, tiles: GroupTilesModel)
    requires
        side.groups.dom() == Set::<u64>::empty(),
        tiles.inv(),
    ensures
        composed_from(side, tiles).inv(),
{
    assert(composed_from(side, tiles).tiles() == tiles);
    assert(composed_from(side, tiles).groups.dom() =~= Set::<u64>::empty());
}

} // verus!
