//! What composing does with groups, in terms of the tiles of their caches.
use vstd::prelude::*;

use crate::render_protocol::BlendMode;
use crate::renderer::composite::{
    ActionModel, CompositeEmission, CompositeFault, CompositeModel, CopyProgress, DrawAtlas,
    GroupModel,
};
use crate::renderer::composite_plan::PlanModel;
use crate::renderer::dirty::TileCoord;
use crate::renderer::group_cache::GroupImageModel;
use crate::renderer::group_tiles::{FreshTile, GroupTilesModel};
use crate::renderer::merge_submission::CopyExtent;
use crate::renderer::planning::{DecisionModel, TileSelection};
use crate::renderer::resolver::{PlacedTile, RenderDataResolver};
use crate::tiles::{TileAddress, TileKey};

verus! {

/// The position of a place of an image: places are numbered row by row.
pub open spec fn place_at(image: GroupImageModel, index: int) -> TileCoord {
    TileCoord {
        tile_x: (index % (image.layout.tiles_per_row as int)) as u32,
        tile_y: (index / (image.layout.tiles_per_row as int)) as u32,
    }
}

/// A group that is drawn at all is drawn whole: every place of its image has a tile,
/// and there is one instance for each, which draws it from where it is, with the
/// blend mode of the group.
pub open spec fn is_whole(entry: GroupModel, addresses: Map<TileKey, TileAddress>) -> bool {
    entry.instances.len() > 0 ==> {
        &&& entry.instances.len() == entry.image.keys.len()
        &&& forall|i: int|
            0 <= i < entry.image.keys.len() ==> (#[trigger] entry.image.keys[i]) is Some
                && crate::renderer::compose_laws::draws_tile(
                entry.instances[i],
                entry.blend,
                place_at(entry.image, i),
                addresses[entry.image.keys[i]->0],
            )
    }
}

/// All groups that are drawn are drawn whole.
pub open spec fn all_whole(model: CompositeModel) -> bool {
    forall|id: u64| #[trigger]
        model.groups.dom().contains(id) ==> is_whole(model.groups[id], model.addresses)
}

/// The places below `count` whose positions are among the tiles, in order.
pub open spec fn picked(image: GroupImageModel, tiles: Set<TileCoord>, count: int) -> Seq<int>
    decreases count,
{
    if count <= 0 {
        Seq::empty()
    } else if tiles.contains(place_at(image, count - 1)) {
        picked(image, tiles, count - 1).push(count - 1)
    } else {
        picked(image, tiles, count - 1)
    }
}

/// The places that are picked ascend, and are all that there are.
pub proof fn lemma_picked(image: GroupImageModel, tiles: Set<TileCoord>, count: int)
    ensures
        forall|r: int|
            0 <= r < picked(image, tiles, count).len() ==> 0 <= #[trigger] picked(
                image,
                tiles,
                count,
            )[r] < count && tiles.contains(place_at(image, picked(image, tiles, count)[r])),
        forall|r: int, s: int|
            0 <= r < s < picked(image, tiles, count).len() ==> #[trigger] picked(
                image,
                tiles,
                count,
            )[r] < #[trigger] picked(image, tiles, count)[s],
        forall|i: int|
            0 <= i < count && tiles.contains(#[trigger] place_at(image, i)) ==> picked(
                image,
                tiles,
                count,
            ).contains(i),
    decreases count,
{
    if count > 0 {
        let fewer = picked(image, tiles, count - 1);
        let all = picked(image, tiles, count);
        lemma_picked(image, tiles, count - 1);
        assert forall|r: int| 0 <= r < all.len() implies 0 <= #[trigger] all[r] < count
            && tiles.contains(place_at(image, all[r])) by {
            if r < fewer.len() {
                assert(all[r] == fewer[r]);
            }
        }
        assert forall|r: int, s: int| 0 <= r < s < all.len() implies #[trigger] all[r]
            < #[trigger] all[s] by {
            assert(all[r] == fewer[r]);
            if s < fewer.len() {
                assert(all[s] == fewer[s]);
            }
        }
        assert forall|i: int|
            0 <= i < count && tiles.contains(#[trigger] place_at(image, i)) implies all.contains(
            i,
        ) by {
            if i < count - 1 {
                assert(fewer.contains(i));
                assert(all[fewer.index_of(i)] == i);
            } else {
                assert(all[all.len() - 1] == i);
            }
        }
    }
}

proof fn lemma_picked_alike(
    image: GroupImageModel,
    left: Set<TileCoord>,
    right: Set<TileCoord>,
    count: int,
)
    requires
        forall|i: int|
            0 <= i < count ==> left.contains(#[trigger] place_at(image, i)) == right.contains(
                place_at(image, i),
            ),
    ensures
        picked(image, left, count) == picked(image, right, count),
    decreases count,
{
    if count > 0 {
        lemma_picked_alike(image, left, right, count - 1);
    }
}

/// What has been copied so far: every picked place has a tile, which is the one that
/// it had before if it had one; other places and tiles in use stay as they are; and
/// there is one copy for each picked place, in order, into the tile of that place.
pub open spec fn has_copied(
    start: CopyProgress,
    tiles: Set<TileCoord>,
    count: int,
    after: CopyProgress,
) -> bool {
    let places = picked(start.image, tiles, count);
    &&& after.image.layout == start.image.layout
    &&& after.image.keys.len() == start.image.keys.len()
    &&& forall|i: int|
        0 <= i < start.image.keys.len() ==> {
            &&& (#[trigger] after.image.keys[i]) is Some <==> start.image.keys[i] is Some || (i
                < count && tiles.contains(place_at(start.image, i)))
            &&& start.image.keys[i] is Some ==> after.image.keys[i] == start.image.keys[i]
        }
    &&& forall|key: TileKey| #[trigger]
        start.addresses.dom().contains(key) ==> after.addresses.dom().contains(key)
            && after.addresses[key] == start.addresses[key]
    &&& after.copies.len() == start.copies.len() + places.len()
    &&& forall|r: int|
        0 <= r < places.len() ==> after.copies[start.copies.len() + r].coord == place_at(
            start.image,
            #[trigger] places[r],
        ) && after.image.keys[places[r]] == Some(after.copies[start.copies.len() + r].key)
    &&& crate::renderer::composite::addressed(after.image, after.addresses)
    &&& (GroupTilesModel { addresses: after.addresses, fresh: after.fresh }).inv()
}

proof fn lemma_copies_are_made(start: CopyProgress, tiles: Set<TileCoord>, count: int)
    requires
        start.image.inv(),
        0 <= count <= start.image.keys.len(),
        crate::renderer::composite::addressed(start.image, start.addresses),
        (GroupTilesModel { addresses: start.addresses, fresh: start.fresh }).inv(),
    ensures
        start.with_tiles(tiles, count) matches Ok(after) ==> has_copied(start, tiles, count, after),
    decreases count,
{
    if count > 0 {
        lemma_copies_are_made(start, tiles, count - 1);
        if let Ok(progress) = start.with_tiles(tiles, count - 1) {
            let coord = place_at(start.image, count - 1);
            crate::model::lemma_index_round_trip(start.image.layout, count - 1);
            assert(coord == crate::renderer::composite::coord_at(start.image, count - 1));
            assert(progress.image.layout.index_of(crate::renderer::group_cache::as_pos(coord))
                == count - 1);
            lemma_picked(start.image, tiles, count - 1);
            if tiles.contains(coord) {
                let places = picked(start.image, tiles, count);
                let fewer = picked(start.image, tiles, count - 1);
                if let Ok(after) = progress.with_tile(coord) {
                    let held = GroupTilesModel {
                        addresses: progress.addresses,
                        fresh: progress.fresh,
                    };
                    let left = GroupTilesModel { addresses: after.addresses, fresh: after.fresh };
                    if progress.image.key_at(coord) is None {
                        let tile = progress.fresh[0];
                        assert(!held.addresses.dom().contains(held.fresh[0].key));
                        assert forall|i: int, j: int| 0 <= i < j < left.fresh.len() implies (
                        #[trigger] left.fresh[i]).key != (#[trigger] left.fresh[j]).key by {
                            assert(held.fresh[i + 1].key != held.fresh[j + 1].key);
                        }
                        assert forall|i: int| 0 <= i < left.fresh.len() implies !left.addresses.dom().contains(
                        (#[trigger] left.fresh[i]).key) by {
                            assert(held.fresh[0].key != held.fresh[i + 1].key);
                            assert(!held.addresses.dom().contains(held.fresh[i + 1].key));
                        }
                        assert forall|i: int|
                            0 <= i < after.image.keys.len() implies #[trigger] after.image.keys[i]
                            == (if i == count - 1 {
                            Some(tile.key)
                        } else {
                            progress.image.keys[i]
                        }) by {}
                        assert(crate::renderer::composite::addressed(
                            after.image,
                            after.addresses,
                        )) by {
                            assert forall|i: int|
                                0 <= i < after.image.keys.len() && (
                                #[trigger] after.image.keys[i]) is Some implies after.addresses.dom().contains(
                            after.image.keys[i]->0) by {
                                if i != count - 1 {
                                    assert(progress.image.keys[i] is Some);
                                }
                            }
                        }
                    } else {
                        assert(after.image == progress.image);
                        assert(left.fresh == held.fresh);
                    }
                    assert forall|r: int| 0 <= r < places.len() implies after.copies[
                    start.copies.len() + r].coord == place_at(start.image, #[trigger] places[r])
                        && after.image.keys[places[r]] == Some(
                        after.copies[start.copies.len() + r].key,
                    ) by {
                        if r < fewer.len() {
                            assert(places[r] == fewer[r]);
                            assert(after.copies[start.copies.len() + r]
                                == progress.copies[start.copies.len() + r]);
                            assert(progress.image.keys[fewer[r]] is Some);
                        }
                    }
                    assert(has_copied(start, tiles, count, after));
                }
            } else {
                assert(has_copied(start, tiles, count, progress));
            }
        }
    }
}

proof fn lemma_all_placed(image: GroupImageModel, count: int)
    requires
        0 <= count <= image.keys.len(),
        forall|i: int| 0 <= i < count ==> (#[trigger] image.keys[i]) is Some,
    ensures
        image.placed_upto(count).len() == count,
        forall|i: int|
            0 <= i < count ==> (#[trigger] image.placed_upto(count)[i]) == (PlacedTile {
                coord: place_at(image, i),
                key: image.keys[i]->0,
            }),
    decreases count,
{
    if count > 0 {
        lemma_all_placed(image, count - 1);
        assert forall|i: int| 0 <= i < count implies (#[trigger] image.placed_upto(count)[i]) == (
        PlacedTile { coord: place_at(image, i), key: image.keys[i]->0 }) by {
            if i < count - 1 {
                assert(image.placed_upto(count)[i] == image.placed_upto(count - 1)[i]);
            }
        }
    }
}

proof fn lemma_built_whole(
    image: GroupImageModel,
    blend: BlendMode,
    addresses: Map<TileKey, TileAddress>,
)
    requires
        image.inv(),
        forall|i: int| 0 <= i < image.keys.len() ==> (#[trigger] image.keys[i]) is Some,
    ensures
        ({
            let entry = GroupModel {
                image,
                instances: crate::renderer::group_cache::group_instances(
                    blend,
                    image.placed(),
                    addresses,
                ),
                blend,
            };
            is_whole(entry, addresses) && entry.instances.len() == image.keys.len()
        }),
{
    let entry = GroupModel {
        image,
        instances: crate::renderer::group_cache::group_instances(
            blend,
            image.placed(),
            addresses,
        ),
        blend,
    };
    lemma_all_placed(image, image.keys.len() as int);
    assert forall|i: int| 0 <= i < image.keys.len() implies (#[trigger] image.keys[i]) is Some
        && crate::renderer::compose_laws::draws_tile(
        entry.instances[i],
        entry.blend,
        place_at(image, i),
        addresses[image.keys[i]->0],
    ) by {
        crate::model::lemma_index_round_trip(image.layout, i);
        assert(image.placed()[i].coord == place_at(image, i));
        lemma_place_is_drawable(image.layout.size.x, place_at(image, i).tile_x);
        lemma_place_is_drawable(image.layout.size.y, place_at(image, i).tile_y);
    }
}

proof fn lemma_place_is_drawable(size: u32, tile: u32)
    requires
        tile < crate::model::parts(size as int, 126) as u32,
    ensures
        tile * 126 <= u32::MAX,
{
    let count = crate::model::parts(size as int, 126);
    assert(0 <= count <= size && (count - 1) * 126 <= size) by (nonlinear_arith)
        requires
            count == (size + 126 - 1) / 126,
            size >= 0,
    ;
}

/// The cache of a group is there in this extent, and something is drawn from it.
pub open spec fn is_cached(model: CompositeModel, group_id: u64, extent: CopyExtent) -> bool {
    &&& model.groups.dom().contains(group_id)
    &&& model.groups[group_id].image.layout.size.x == extent.width
    &&& model.groups[group_id].image.layout.size.y == extent.height
    &&& model.groups[group_id].instances.len() > 0
}

/// The tiles that are copied into the cache of a group: the dirty ones if it is there
/// and they are known, and else all.
pub open spec fn wanted(
    model: CompositeModel,
    group_id: u64,
    extent: CopyExtent,
    dirty: TileSelection,
) -> Set<TileCoord> {
    if is_cached(model, group_id, extent) && dirty is Some {
        dirty->0
    } else {
        Set::new(|c: TileCoord| true)
    }
}

proof fn lemma_start_of_copies(model: CompositeModel, group_id: u64, extent: CopyExtent)
    requires
        model.inv(),
        crate::renderer::composite::extent_fits(extent),
    ensures
        ({
            let start = model.copy_start(group_id, extent);
            &&& start.image.inv()
            &&& start.image.layout.size.x == extent.width
            &&& start.image.layout.size.y == extent.height
            &&& start.copies.len() == 0
            &&& crate::renderer::composite::addressed(start.image, start.addresses)
            &&& (GroupTilesModel { addresses: start.addresses, fresh: start.fresh }).inv()
            &&& forall|id: u64, i: int, key: TileKey|
                id != group_id && #[trigger] model.uses(id, i, key)
                    ==> start.addresses.dom().contains(key) && start.addresses[key]
                    == model.addresses[key]
        }),
{
    let start = model.copy_start(group_id, extent);
    crate::renderer::composite::lemma_blank_group(extent);
    if !model.fits(group_id, extent) {
        crate::renderer::composite::lemma_giving_up_a_group_leaves_the_others(model, group_id);
        let image = model.groups[group_id].image;
        assert forall|id: u64, i: int, key: TileKey|
            id != group_id && #[trigger] model.uses(
                id,
                i,
                key,
            ) implies start.addresses.dom().contains(key) && start.addresses[key]
            == model.addresses[key] by {
            assert forall|at: int| 0 <= at < image.placed().len() implies (
            #[trigger] image.placed()[at]).key != key by {
                crate::renderer::composite::lemma_placed_tiles_are_used(
                    image,
                    image.keys.len() as int,
                    at,
                );
                let place = choose|place: int|
                    0 <= place < image.keys.len() && #[trigger] image.keys[place] == Some(
                        image.placed()[at].key,
                    );
                if image.placed()[at].key == key {
                    assert(model.uses(group_id, place, key));
                }
            }
            crate::renderer::group_tiles::lemma_release_leaves_others(
                model.tiles(),
                image.placed(),
                key,
            );
            assert(model.groups[id].image.keys[i] is Some);
        }
    } else {
        assert forall|id: u64, i: int, key: TileKey|
            id != group_id && #[trigger] model.uses(
                id,
                i,
                key,
            ) implies start.addresses.dom().contains(key) && start.addresses[key]
            == model.addresses[key] by {
            assert(model.groups[id].image.keys[i] is Some);
        }
    }
}

/// Taking tiles into the cache of a group leaves the group whole, in the extent that
/// is asked for. The tiles that are copied are the dirty ones if the cache was there
/// already, and else all, each once and in order, into the tile of its place; a cache
/// that was there keeps its tiles. Other groups, layers and steps stay as they are.
pub proof fn lemma_group_is_cached_whole(
    model: CompositeModel,
    group_id: u64,
    extent: CopyExtent,
    dirty: TileSelection,
)
    requires
        model.inv(),
        crate::renderer::composite::extent_fits(extent),
        all_whole(model),
    ensures
        match model.with_cached(group_id, extent, dirty) {
            Ok((after, copies)) => {
                let entry = after.groups[group_id];
                let places = picked(
                    entry.image,
                    wanted(model, group_id, extent, dirty),
                    entry.image.keys.len() as int,
                );
                &&& after.inv()
                &&& all_whole(after)
                &&& after.groups.dom() == model.groups.dom().insert(group_id)
                &&& forall|id: u64|
                    id != group_id ==> #[trigger] after.groups[id] == model.groups[id]
                &&& after.leaves == model.leaves
                &&& after.actions == model.actions
                &&& entry.image.layout.size.x == extent.width
                &&& entry.image.layout.size.y == extent.height
                &&& entry.instances.len() == entry.image.keys.len()
                &&& is_cached(model, group_id, extent) ==> entry.image.keys
                    == model.groups[group_id].image.keys && entry.blend
                    == model.groups[group_id].blend
                &&& copies.len() == places.len()
                &&& forall|r: int|
                    0 <= r < places.len() ==> copies[r].coord == place_at(
                        entry.image,
                        #[trigger] places[r],
                    ) && entry.image.keys[places[r]] == Some(copies[r].key)
            },
            Err(fault) => fault is NoFreshTile,
        },
{
    let start = model.copy_start(group_id, extent);
    let base = model.resized(group_id, extent);
    let plan = crate::renderer::group_cache::copied(
        base.image,
        base.instances.len() > 0,
        !model.fits(group_id, extent),
        dirty,
    );
    let count = base.image.keys.len() as int;
    lemma_start_of_copies(model, group_id, extent);
    crate::renderer::composite::lemma_blank_group(extent);
    crate::renderer::composite::lemma_caching_keeps_tiles_apart(model, group_id, extent, dirty);
    crate::renderer::composite::lemma_caching_faults(model, group_id, extent, dirty);
    lemma_copies_are_made(start, plan.tiles, count);
    if let Ok((after, copies)) = model.with_cached(group_id, extent, dirty) {
        let progress = start.with_tiles(plan.tiles, count)->Ok_0;
        let entry = after.groups[group_id];
        assert forall|i: int| 0 <= i < count implies base.image.has(
            #[trigger] place_at(base.image, i),
        ) by {
            crate::model::lemma_index_round_trip(base.image.layout, i);
        }
        assert forall|i: int| 0 <= i < count implies plan.tiles.contains(
            #[trigger] place_at(base.image, i),
        ) == wanted(model, group_id, extent, dirty).contains(place_at(base.image, i)) by {}
        lemma_picked_alike(
            base.image,
            plan.tiles,
            wanted(model, group_id, extent, dirty),
            count,
        );
        lemma_picked_by_layout(
            base.image,
            entry.image,
            wanted(model, group_id, extent, dirty),
            count,
        );
        if is_cached(model, group_id, extent) {
            assert(is_whole(model.groups[group_id], model.addresses));
            assert(entry.image.keys =~= model.groups[group_id].image.keys);
            assert(model.groups.dom().contains(group_id));
            assert forall|i: int| 0 <= i < count implies start.addresses.dom().contains(
                (#[trigger] base.image.keys[i])->0,
            ) by {
                assert(base.image.keys[i] is Some);
            }
        }
        if plan.rebuild {
            assert forall|i: int| 0 <= i < entry.image.keys.len() implies (
            #[trigger] entry.image.keys[i]) is Some by {
                assert(plan.tiles.contains(place_at(base.image, i)));
            }
            lemma_built_whole(entry.image, base.blend, after.addresses);
        }
        assert(is_whole(entry, after.addresses));
        assert forall|id: u64| #[trigger] after.groups.dom().contains(id) implies is_whole(
            after.groups[id],
            after.addresses,
        ) by {
            if id != group_id {
                assert(model.groups.dom().contains(id));
                let other = model.groups[id];
                assert(is_whole(other, model.addresses));
                if other.instances.len() > 0 {
                    assert forall|i: int| 0 <= i < other.image.keys.len() implies (
                    #[trigger] other.image.keys[i]) is Some
                        && crate::renderer::compose_laws::draws_tile(
                        other.instances[i],
                        other.blend,
                        place_at(other.image, i),
                        after.addresses[other.image.keys[i]->0],
                    ) by {
                        assert(model.uses(id, i, other.image.keys[i]->0));
                    }
                }
            }
        }
    }
}

proof fn lemma_picked_by_layout(
    left: GroupImageModel,
    right: GroupImageModel,
    tiles: Set<TileCoord>,
    count: int,
)
    requires
        left.layout == right.layout,
    ensures
        picked(left, tiles, count) == picked(right, tiles, count),
    decreases count,
{
    if count > 0 {
        lemma_picked_by_layout(left, right, tiles, count - 1);
    }
}

/// The steps go on with drawing a group, if it is to be drawn into the target.
pub open spec fn goes_on_with_group(
    before: Seq<ActionModel>,
    after: Seq<ActionModel>,
    entry: GroupModel,
    emit_tiles: TileSelection,
    emission: CompositeEmission,
) -> bool {
    if emission is EmitToTarget {
        crate::renderer::compose_laws::goes_on_drawing(
            before,
            after,
            DrawAtlas::Groups,
            entry.instances,
            emit_tiles,
        )
    } else {
        after == before
    }
}

proof fn lemma_group_is_drawn(
    model: CompositeModel,
    group_id: u64,
    entry: GroupModel,
    emit_tiles: TileSelection,
    emission: CompositeEmission,
)
    requires
        all_whole(model),
        is_whole(entry, model.addresses),
    ensures
        ({
            let after = model.with_group_drawn(group_id, entry, emit_tiles, emission);
            &&& all_whole(after)
            &&& goes_on_with_group(model.actions, after.actions, entry, emit_tiles, emission)
        }),
{
    let after = model.with_group_drawn(group_id, entry, emit_tiles, emission);
    assert forall|id: u64| #[trigger] after.groups.dom().contains(id) implies is_whole(
        after.groups[id],
        after.addresses,
    ) by {
        if id != group_id {
            assert(model.groups.dom().contains(id));
        }
    }
    if emission is EmitToTarget {
        crate::renderer::compose_laws::lemma_drawn_steps(
            model.actions,
            DrawAtlas::Groups,
            entry.instances,
            emit_tiles,
        );
    }
}

proof fn lemma_blend_keeps_whole(
    entry: GroupModel,
    blend: BlendMode,
    addresses: Map<TileKey, TileAddress>,
)
    requires
        entry.image.inv(),
        is_whole(entry, addresses),
        entry.instances.len() > 0 || entry.image.keys.len() == 0,
    ensures
        ({
            let after = crate::renderer::composite::with_blend(entry, blend, addresses);
            &&& is_whole(after, addresses)
            &&& after.blend == blend
            &&& after.image == entry.image
            &&& after.instances.len() == entry.instances.len()
        }),
{
    if entry.blend != blend {
        assert forall|i: int| 0 <= i < entry.image.keys.len() implies (
        #[trigger] entry.image.keys[i]) is Some by {}
        lemma_built_whole(entry.image, blend, addresses);
    }
}

/// Every cached group is drawn from all places of its image, where it has any.
pub open spec fn all_drawn(model: CompositeModel) -> bool {
    forall|id: u64| #[trigger]
        model.groups.dom().contains(id) ==> model.groups[id].instances.len()
            == model.groups[id].image.keys.len()
}

/// Nothing changes but the cache of a group, whose image stays, and the steps, which
/// go on with drawing the group.
pub open spec fn only_draws_group(
    model: CompositeModel,
    after: CompositeModel,
    group_id: u64,
    emit_tiles: TileSelection,
    emission: CompositeEmission,
) -> bool {
    &&& model.groups.dom().contains(group_id)
    &&& after.groups[group_id].image == model.groups[group_id].image
    &&& after.groups.dom() == model.groups.dom()
    &&& forall|id: u64| id != group_id ==> #[trigger] after.groups[id] == model.groups[id]
    &&& after.leaves == model.leaves
    &&& after.addresses == model.addresses
    &&& after.fresh == model.fresh
    &&& goes_on_with_group(
        model.actions,
        after.actions,
        after.groups[group_id],
        emit_tiles,
        emission,
    )
}

proof fn lemma_group_is_reblended_and_drawn(
    model: CompositeModel,
    group_id: u64,
    blend: BlendMode,
    emit_tiles: TileSelection,
    emission: CompositeEmission,
)
    requires
        model.inv(),
        all_whole(model),
        all_drawn(model),
        model.groups.dom().contains(group_id),
    ensures
        ({
            let entry = crate::renderer::composite::with_blend(
                model.groups[group_id],
                blend,
                model.addresses,
            );
            let after = model.with_group_drawn(group_id, entry, emit_tiles, emission);
            &&& after.groups[group_id].blend == blend
            &&& all_whole(after)
            &&& all_drawn(after)
            &&& only_draws_group(model, after, group_id, emit_tiles, emission)
        }),
{
    let entry = model.groups[group_id];
    lemma_blend_keeps_whole(entry, blend, model.addresses);
    let blended = crate::renderer::composite::with_blend(entry, blend, model.addresses);
    lemma_group_is_drawn(model, group_id, blended, emit_tiles, emission);
    let after = model.with_group_drawn(group_id, blended, emit_tiles, emission);
    assert(after.groups.dom() =~= model.groups.dom());
    assert forall|id: u64| #[trigger] after.groups.dom().contains(id) implies
        after.groups[id].instances.len() == after.groups[id].image.keys.len() by {
        assert(model.groups.dom().contains(id));
    }
}

/// A group whose cache is to be used, or of which no tile is to be rendered anew, is
/// drawn from its cache, in the first case with the blend mode that it has now;
/// nothing else changes. Without a cache this fails.
pub proof fn lemma_cached_group_is_drawn_from_its_cache<R: RenderDataResolver>(
    resolver: &R,
    extent: CopyExtent,
    group_id: u64,
    blend: BlendMode,
    decision: DecisionModel,
    emit_tiles: TileSelection,
    children: Seq<PlanModel>,
    emission: CompositeEmission,
    model: CompositeModel,
)
    requires
        model.inv(),
        all_whole(model),
        all_drawn(model),
        decision.mode is UseCache || decision.tiles == Some(Set::<TileCoord>::empty()),
    ensures
        match crate::renderer::composite::rendered(
            resolver,
            extent,
            (PlanModel::Group { group_id, blend, decision, emit_tiles, children }),
            emission,
            model,
        ) {
            Err(fault) => !model.groups.dom().contains(group_id) && fault == (
            CompositeFault::MissingGroupCache { group_id }),
            Ok(after) => {
                &&& after.groups[group_id].blend == (if decision.mode is UseCache {
                    blend
                } else {
                    model.groups[group_id].blend
                })
                &&& all_whole(after)
                &&& all_drawn(after)
                &&& only_draws_group(model, after, group_id, emit_tiles, emission)
            },
        },
{
    if model.groups.dom().contains(group_id) {
        if decision.mode is UseCache {
            lemma_group_is_reblended_and_drawn(model, group_id, blend, emit_tiles, emission);
        } else {
            lemma_group_is_reblended_and_drawn(
                model,
                group_id,
                model.groups[group_id].blend,
                emit_tiles,
                emission,
            );
        }
    }
}

/// A group that is rendered anew is opened, its children are composed into it, it is
/// closed with the copies into its cache, and drawn from the cache with the blend mode
/// that it has now.
pub proof fn lemma_group_is_rendered_anew<R: RenderDataResolver>(
    resolver: &R,
    extent: CopyExtent,
    group_id: u64,
    blend: BlendMode,
    decision: DecisionModel,
    emit_tiles: TileSelection,
    children: Seq<PlanModel>,
    emission: CompositeEmission,
    model: CompositeModel,
)
    requires
        crate::renderer::composite::extent_fits(extent),
        model.inv(),
        all_whole(model),
        all_drawn(model),
        !(decision.mode is UseCache || decision.tiles == Some(Set::<TileCoord>::empty())),
    ensures
        ({
            let opened = CompositeModel {
                actions: model.actions.push(ActionModel::OpenGroup { group_id }),
                ..model
            };
            let plan = PlanModel::Group { group_id, blend, decision, emit_tiles, children };
            let result = crate::renderer::composite::rendered(
                resolver,
                extent,
                plan,
                emission,
                model,
            );
            match crate::renderer::composite::rendered_all(resolver, extent, children, opened) {
                Err(fault) => result == Err::<CompositeModel, CompositeFault>(fault),
                Ok(composed) => match composed.with_cached(group_id, extent, decision.tiles) {
                    Err(fault) => result == Err::<CompositeModel, CompositeFault>(fault),
                    Ok((cached, copies)) => {
                        let closed = CompositeModel {
                            actions: composed.actions.push(
                                ActionModel::CloseGroup { group_id, copies },
                            ),
                            ..cached
                        };
                        &&& result matches Ok(after)
                        &&& after.inv()
                        &&& all_whole(after)
                        &&& all_drawn(after)
                        &&& after.groups[group_id].blend == blend
                        &&& only_draws_group(closed, after, group_id, emit_tiles, emission)
                    },
                },
            }
        }),
    decreases (PlanModel::Group { group_id, blend, decision, emit_tiles, children }), 0int,
{
    let plan = PlanModel::Group { group_id, blend, decision, emit_tiles, children };
    let opened = model.with_action(ActionModel::OpenGroup { group_id });
    let tile: FreshTile = arbitrary();
    crate::renderer::composite::lemma_same_tiles_stay_apart(model, opened);
    assert(all_whole(opened)) by {
        assert forall|id: u64| #[trigger] opened.groups.dom().contains(id) implies is_whole(
            opened.groups[id],
            opened.addresses,
        ) by {
            assert(model.groups.dom().contains(id));
        }
    }
    assert(all_drawn(opened)) by {
        assert forall|id: u64| #[trigger] opened.groups.dom().contains(id) implies
            opened.groups[id].instances.len() == opened.groups[id].image.keys.len() by {
            assert(model.groups.dom().contains(id));
        }
    }
    lemma_children_are_drawn_in_order(resolver, extent, children, opened);
    if let Ok(composed) = crate::renderer::composite::rendered_all(
        resolver,
        extent,
        children,
        opened,
    ) {
        lemma_group_is_cached_whole(composed, group_id, extent, decision.tiles);
        if let Ok((cached, copies)) = composed.with_cached(group_id, extent, decision.tiles) {
            let closed = cached.with_action(ActionModel::CloseGroup { group_id, copies });
            crate::renderer::composite::lemma_same_tiles_stay_apart(cached, closed);
            assert(all_whole(closed)) by {
                assert forall|id: u64| #[trigger] closed.groups.dom().contains(id) implies is_whole(
                    closed.groups[id],
                    closed.addresses,
                ) by {
                    assert(cached.groups.dom().contains(id));
                }
            }
            assert(all_drawn(closed)) by {
                assert forall|id: u64| #[trigger] closed.groups.dom().contains(id) implies
                    closed.groups[id].instances.len() == closed.groups[id].image.keys.len() by {
                    if id != group_id {
                        assert(composed.groups.dom().contains(id));
                    }
                }
            }
            lemma_group_is_reblended_and_drawn(closed, group_id, blend, emit_tiles, emission);
            let entry = crate::renderer::composite::with_blend(
                closed.groups[group_id],
                blend,
                closed.addresses,
            );
            let after = closed.with_group_drawn(group_id, entry, emit_tiles, emission);
            crate::renderer::composite::lemma_composing_keeps_tiles_apart(
                resolver,
                extent,
                plan,
                emission,
                model,
                tile,
            );
        }
    }
}

/// Composing a node keeps all cached groups whole, and adds to the steps.
pub proof fn lemma_groups_stay_whole<R: RenderDataResolver>(
    resolver: &R,
    extent: CopyExtent,
    plan: PlanModel,
    emission: CompositeEmission,
    model: CompositeModel,
)
    requires
        crate::renderer::composite::extent_fits(extent),
        model.inv(),
        all_whole(model),
        all_drawn(model),
    ensures
        crate::renderer::composite::rendered(resolver, extent, plan, emission, model) matches Ok(
            after,
        ) ==> after.inv() && all_whole(after) && all_drawn(after) && model.actions.is_prefix_of(
            after.actions,
        ),
    decreases plan, 1int,
{
    let tile: FreshTile = arbitrary();
    crate::renderer::composite::lemma_composing_keeps_tiles_apart(
        resolver,
        extent,
        plan,
        emission,
        model,
        tile,
    );
    match plan {
        PlanModel::Leaf {
            layer_id,
            blend,
            image_source,
            should_rebuild,
            dirty_tiles,
            visible_tiles,
        } => {
            crate::renderer::compose_laws::lemma_leaf_draws_its_visible_tiles(
                resolver,
                layer_id,
                blend,
                image_source,
                should_rebuild,
                dirty_tiles,
                visible_tiles,
                model,
            );
            let after = crate::renderer::composite::rendered(
                resolver,
                extent,
                plan,
                emission,
                model,
            )->Ok_0;
            lemma_prefix_of_steps(model.actions, after.actions);
            assert forall|id: u64| #[trigger] after.groups.dom().contains(id) implies is_whole(
                after.groups[id],
                after.addresses,
            ) && after.groups[id].instances.len() == after.groups[id].image.keys.len() by {
                assert(model.groups.dom().contains(id));
            }
        },
        PlanModel::Group { group_id, blend, decision, emit_tiles, children } => {
            if decision.mode is UseCache || decision.tiles == Some(Set::<TileCoord>::empty()) {
                lemma_cached_group_is_drawn_from_its_cache(
                    resolver,
                    extent,
                    group_id,
                    blend,
                    decision,
                    emit_tiles,
                    children,
                    emission,
                    model,
                );
                if let Ok(after) = crate::renderer::composite::rendered(
                    resolver,
                    extent,
                    plan,
                    emission,
                    model,
                ) {
                    lemma_prefix_of_steps(model.actions, after.actions);
                }
            } else {
                lemma_group_is_rendered_anew(
                    resolver,
                    extent,
                    group_id,
                    blend,
                    decision,
                    emit_tiles,
                    children,
                    emission,
                    model,
                );
                if let Ok(after) = crate::renderer::composite::rendered(
                    resolver,
                    extent,
                    plan,
                    emission,
                    model,
                ) {
                    let opened = model.with_action(ActionModel::OpenGroup { group_id });
                    let composed = crate::renderer::composite::rendered_all(
                        resolver,
                        extent,
                        children,
                        opened,
                    )->Ok_0;
                    let copies = (composed.with_cached(
                        group_id,
                        extent,
                        decision.tiles,
                    )->Ok_0).1;
                    let closed = composed.actions.push(
                        ActionModel::CloseGroup { group_id, copies },
                    );
                    crate::renderer::composite::lemma_same_tiles_stay_apart(model, opened);
                    assert(all_whole(opened) && all_drawn(opened)) by {
                        assert forall|id: u64| #[trigger]
                            opened.groups.dom().contains(id) implies is_whole(
                            opened.groups[id],
                            opened.addresses,
                        ) && opened.groups[id].instances.len()
                            == opened.groups[id].image.keys.len() by {
                            assert(model.groups.dom().contains(id));
                        }
                    }
                    lemma_children_are_drawn_in_order(resolver, extent, children, opened);
                    assert(opened.actions.drop_last() =~= model.actions);
                    assert(closed.drop_last() =~= composed.actions);
                    lemma_prefix_of_steps(model.actions, opened.actions);
                    lemma_prefix_of_steps(composed.actions, closed);
                    lemma_prefix_of_steps(closed, after.actions);
                    lemma_prefixes_chain(model.actions, opened.actions, composed.actions);
                    lemma_prefixes_chain(model.actions, composed.actions, closed);
                    lemma_prefixes_chain(model.actions, closed, after.actions);
                }
            }
        },
    }
}

/// The child with this number is composed in the state that the ones before it leave,
/// and what it adds to the steps is among the first of all.
pub open spec fn is_drawn_in_turn<R: RenderDataResolver>(
    resolver: &R,
    extent: CopyExtent,
    plans: Seq<PlanModel>,
    model: CompositeModel,
    actions: Seq<ActionModel>,
    k: int,
) -> bool {
    let earlier = crate::renderer::composite::rendered_all(resolver, extent, plans.take(k), model);
    let later = crate::renderer::composite::rendered_all(
        resolver,
        extent,
        plans.take(k + 1),
        model,
    );
    &&& earlier is Ok
    &&& later is Ok
    &&& later == crate::renderer::composite::rendered(
        resolver,
        extent,
        plans[k],
        CompositeEmission::EmitToTarget,
        earlier->Ok_0,
    )
    &&& later->Ok_0.actions.is_prefix_of(actions)
}

/// The children of a group are composed one after the other, each in the state that
/// the one before it leaves; what the first of them add to the steps comes first.
pub proof fn lemma_children_are_drawn_in_order<R: RenderDataResolver>(
    resolver: &R,
    extent: CopyExtent,
    plans: Seq<PlanModel>,
    model: CompositeModel,
)
    requires
        crate::renderer::composite::extent_fits(extent),
        model.inv(),
        all_whole(model),
        all_drawn(model),
    ensures
        plans.len() == 0 ==> crate::renderer::composite::rendered_all(
            resolver,
            extent,
            plans,
            model,
        ) == Ok::<CompositeModel, CompositeFault>(model),
        crate::renderer::composite::rendered_all(resolver, extent, plans, model) matches Ok(after)
            ==> {
            &&& after.inv()
            &&& all_whole(after)
            &&& all_drawn(after)
            &&& model.actions.is_prefix_of(after.actions)
            &&& forall|k: int|
                0 <= k < plans.len() ==> #[trigger] is_drawn_in_turn(
                    resolver,
                    extent,
                    plans,
                    model,
                    after.actions,
                    k,
                )
        },
    decreases plans, 0int,
{
    if plans.len() == 0 {
        lemma_prefix_of_steps(model.actions, model.actions);
    } else {
        let shorter = plans.drop_last();
        let last = plans.len() - 1;
        lemma_children_are_drawn_in_order(resolver, extent, shorter, model);
        if let Ok(before) = crate::renderer::composite::rendered_all(
            resolver,
            extent,
            shorter,
            model,
        ) {
            lemma_groups_stay_whole(
                resolver,
                extent,
                plans.last(),
                CompositeEmission::EmitToTarget,
                before,
            );
            if let Ok(after) = crate::renderer::composite::rendered_all(
                resolver,
                extent,
                plans,
                model,
            ) {
                assert(plans.take(last) =~= shorter);
                assert(plans.take(last + 1) =~= plans);
                lemma_prefixes_chain(model.actions, before.actions, after.actions);
                lemma_prefix_of_steps(after.actions, after.actions);
                assert forall|k: int| 0 <= k < plans.len() implies #[trigger] is_drawn_in_turn(
                    resolver,
                    extent,
                    plans,
                    model,
                    after.actions,
                    k,
                ) by {
                    if k < last {
                        assert(is_drawn_in_turn(
                            resolver,
                            extent,
                            shorter,
                            model,
                            before.actions,
                            k,
                        ));
                        assert(shorter[k] == plans[k]);
                        assert(plans.take(k) =~= shorter.take(k));
                        assert(plans.take(k + 1) =~= shorter.take(k + 1));
                        let later = crate::renderer::composite::rendered_all(
                            resolver,
                            extent,
                            shorter.take(k + 1),
                            model,
                        );
                        lemma_prefixes_chain(
                            later->Ok_0.actions,
                            before.actions,
                            after.actions,
                        );
                    }
                }
            }
        }
    }
}

proof fn lemma_prefix_of_steps(before: Seq<ActionModel>, after: Seq<ActionModel>)
    requires
        after == before || (after.len() == before.len() + 1 && after.drop_last() == before),
    ensures
        before.is_prefix_of(after),
{
    assert(before =~= after.subrange(0, before.len() as int));
}

proof fn lemma_prefixes_chain(
    first: Seq<ActionModel>,
    second: Seq<ActionModel>,
    third: Seq<ActionModel>,
)
    requires
        first.is_prefix_of(second),
        second.is_prefix_of(third),
    ensures
        first.is_prefix_of(third),
{
    assert forall|i: int| 0 <= i < first.len() implies first[i] == third[i] by {
        assert(first[i] == second.subrange(0, first.len() as int)[i]);
        assert(second[i] == third.subrange(0, second.len() as int)[i]);
    }
    assert(first =~= third.subrange(0, first.len() as int));
}

/// A group whose cache has the size of the document keeps its tiles. Otherwise it starts
/// with an empty cache of that size, and the tiles of the old one can be used again.
pub proof fn lemma_cache_takes_the_size_of_the_document(
    model: CompositeModel,
    group_id: u64,
    extent: CopyExtent,
)
    ensures
        ({
            let old = model.groups[group_id];
            let start = model.copy_start(group_id, extent);
            let kept = model.groups.dom().contains(group_id) && old.image.layout.size.x
                == extent.width && old.image.layout.size.y == extent.height;
            &&& start.copies.len() == 0
            &&& kept ==> start.image == old.image && start.addresses == model.addresses
                && start.fresh == model.fresh
            &&& !kept ==> {
                &&& start.image.layout.size.x == extent.width
                &&& start.image.layout.size.y == extent.height
                &&& forall|i: int|
                    0 <= i < start.image.keys.len() ==> (#[trigger] start.image.keys[i]) is None
            }
            &&& !model.groups.dom().contains(group_id) ==> start.addresses == model.addresses
                && start.fresh == model.fresh
            &&& !kept && model.groups.dom().contains(group_id) ==> forall|i: int|
                0 <= i < old.image.placed().len() ==> {
                    let key = (#[trigger] old.image.placed()[i]).key;
                    &&& !start.addresses.dom().contains(key)
                    &&& model.addresses.dom().contains(key) ==> start.fresh.contains(
                        FreshTile { key, address: model.addresses[key] },
                    )
                }
        }),
{
    let old = model.groups[group_id];
    if model.groups.dom().contains(group_id) && !model.fits(group_id, extent) {
        let tiles = old.image.placed();
        assert forall|i: int| 0 <= i < tiles.len() implies {
            let key = (#[trigger] tiles[i]).key;
            let start = model.copy_start(group_id, extent);
            &&& !start.addresses.dom().contains(key)
            &&& model.addresses.dom().contains(key) ==> start.fresh.contains(
                FreshTile { key, address: model.addresses[key] },
            )
        } by {
            crate::renderer::group_tiles::lemma_released_tile_can_be_used_again(
                model.tiles(),
                tiles,
                i,
            );
        }
    }
}

/// A tile of a group is copied into its cache exactly if the group has it, and it is dirty
/// or there is nothing to go on from. The instances are built anew unless they are there,
/// the cache keeps its size, and it is known which tiles are dirty.
pub proof fn lemma_dirty_tiles_are_copied(
    image: GroupImageModel,
    has_instances: bool,
    resized: bool,
    dirty: Option<Set<TileCoord>>,
    tile: TileCoord,
)
    ensures
        ({
            let plan = crate::renderer::group_cache::copied(image, has_instances, resized, dirty);
            let in_image = tile.tile_x < image.layout.tiles_per_row && tile.tile_y
                < image.layout.tiles_per_column;
            &&& plan.tiles.contains(tile) <==> in_image && (dirty is None || !has_instances
                || dirty->0.contains(tile))
            &&& plan.rebuild <==> dirty is None || !has_instances || resized
        }),
{
}

} // verus!
