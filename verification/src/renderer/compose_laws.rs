//! What composing draws, in terms of the tiles that the document lists.
use vstd::prelude::*;

use crate::render_protocol::BlendMode;
use crate::renderer::composite::{ActionModel, CompositeModel, DrawAtlas};
use crate::renderer::composite_plan::LeafModel;
use crate::renderer::dirty::{TileCoord, TileMaskModel};
use crate::renderer::draw_builders::TileDrawInstance;
use crate::renderer::planning::TileSelection;
use crate::renderer::resolver::{ImageSource, PlacedTile, RenderDataResolver};
use crate::tiles::TileAddress;

verus! {

/// The instance draws the tile at this position from the slot at this address:
/// tiles are squares of 126 pixels.
pub open spec fn draws_tile(
    instance: TileDrawInstance,
    blend: BlendMode,
    coord: TileCoord,
    address: TileAddress,
) -> bool {
    &&& instance.blend_mode == blend
    &&& instance.tile.document_x == 126 * coord.tile_x
    &&& instance.tile.document_y == 126 * coord.tile_y
    &&& instance.tile.atlas_layer == address.atlas_layer
    &&& instance.tile.tile_index == address.tile_index
}

/// The position that the instance draws at.
pub open spec fn drawn_at(instance: TileDrawInstance) -> TileCoord {
    TileCoord {
        tile_x: (instance.tile.document_x / 126) as u32,
        tile_y: (instance.tile.document_y / 126) as u32,
    }
}

/// The instance draws a tile that the document lists for the source, from where the
/// tile is now.
pub open spec fn is_current<R: RenderDataResolver>(
    resolver: &R,
    source: ImageSource,
    blend: BlendMode,
    instance: TileDrawInstance,
) -> bool {
    exists|i: int|
        0 <= i < resolver.tiles_of(source).len() && draws_tile(
            instance,
            blend,
            (#[trigger] resolver.tiles_of(source)[i]).coord,
            resolver.address_of(source, resolver.tiles_of(source)[i].key)->0,
        )
}

/// Asked for the tiles of a source among some positions, the document lists those of
/// its tiles that are there.
pub open spec fn lists_among<R: RenderDataResolver>(
    resolver: &R,
    source: ImageSource,
    coords: Set<TileCoord>,
) -> bool {
    forall|tile: PlacedTile| #[trigger]
        resolver.tiles_among(source, coords).contains(tile) <==> resolver.tiles_of(
            source,
        ).contains(tile) && coords.contains(tile.coord)
}

/// The places of the instances that draw outside of the positions, in order.
pub open spec fn places_outside(instances: Seq<TileDrawInstance>, coords: Set<TileCoord>) -> Seq<int>
    decreases instances.len(),
{
    if instances.len() == 0 {
        Seq::empty()
    } else if coords.contains(drawn_at(instances.last())) {
        places_outside(instances.drop_last(), coords)
    } else {
        places_outside(instances.drop_last(), coords).push(instances.len() - 1)
    }
}

/// The places of the instances that draw at a selected position, in order.
pub open spec fn places_shown(instances: Seq<TileDrawInstance>, visible: TileSelection) -> Seq<int>
    decreases instances.len(),
{
    if instances.len() == 0 {
        Seq::empty()
    } else if visible is Some && !visible->0.contains(drawn_at(instances.last())) {
        places_shown(instances.drop_last(), visible)
    } else {
        places_shown(instances.drop_last(), visible).push(instances.len() - 1)
    }
}

/// The places outside of some positions ascend, and are all there are.
pub proof fn lemma_places_outside(instances: Seq<TileDrawInstance>, coords: Set<TileCoord>)
    ensures
        forall|r: int|
            0 <= r < places_outside(instances, coords).len() ==> 0 <= #[trigger] places_outside(
                instances,
                coords,
            )[r] < instances.len() && !coords.contains(
                drawn_at(instances[places_outside(instances, coords)[r]]),
            ),
        forall|r: int, s: int|
            0 <= r < s < places_outside(instances, coords).len() ==> #[trigger] places_outside(
                instances,
                coords,
            )[r] < #[trigger] places_outside(instances, coords)[s],
        forall|i: int|
            0 <= i < instances.len() && !coords.contains(drawn_at(#[trigger] instances[i]))
                ==> places_outside(instances, coords).contains(i),
    decreases instances.len(),
{
    if instances.len() > 0 {
        let shorter = instances.drop_last();
        let fewer = places_outside(shorter, coords);
        let all = places_outside(instances, coords);
        lemma_places_outside(shorter, coords);
        assert forall|r: int| 0 <= r < all.len() implies 0 <= #[trigger] all[r] < instances.len()
            && !coords.contains(drawn_at(instances[all[r]])) by {
            if r < fewer.len() {
                assert(all[r] == fewer[r]);
                assert(shorter[fewer[r]] == instances[fewer[r]]);
            }
        }
        assert forall|r: int, s: int| 0 <= r < s < all.len() implies #[trigger] all[r]
            < #[trigger] all[s] by {
            assert(all[r] == fewer[r]);
            if s < fewer.len() {
                assert(all[s] == fewer[s]);
            }
        }
        assert forall|i: int|
            0 <= i < instances.len() && !coords.contains(
                drawn_at(#[trigger] instances[i]),
            ) implies all.contains(i) by {
            if i < instances.len() - 1 {
                assert(shorter[i] == instances[i]);
                assert(fewer.contains(i));
                assert(all[fewer.index_of(i)] == i);
            } else {
                assert(all[all.len() - 1] == i);
            }
        }
    }
}

/// The places at selected positions ascend, and are all there are.
pub proof fn lemma_places_shown(instances: Seq<TileDrawInstance>, visible: TileSelection)
    ensures
        forall|r: int|
            0 <= r < places_shown(instances, visible).len() ==> 0 <= #[trigger] places_shown(
                instances,
                visible,
            )[r] < instances.len() && (visible is Some ==> visible->0.contains(
                drawn_at(instances[places_shown(instances, visible)[r]]),
            )),
        forall|r: int, s: int|
            0 <= r < s < places_shown(instances, visible).len() ==> #[trigger] places_shown(
                instances,
                visible,
            )[r] < #[trigger] places_shown(instances, visible)[s],
        forall|i: int|
            0 <= i < instances.len() && (visible is Some ==> visible->0.contains(
                drawn_at(#[trigger] instances[i]),
            )) ==> places_shown(instances, visible).contains(i),
        visible is None ==> places_shown(instances, visible).len() == instances.len(),
    decreases instances.len(),
{
    if instances.len() > 0 {
        let shorter = instances.drop_last();
        let fewer = places_shown(shorter, visible);
        let all = places_shown(instances, visible);
        lemma_places_shown(shorter, visible);
        assert forall|r: int| 0 <= r < all.len() implies 0 <= #[trigger] all[r] < instances.len()
            && (visible is Some ==> visible->0.contains(drawn_at(instances[all[r]]))) by {
            if r < fewer.len() {
                assert(all[r] == fewer[r]);
                assert(shorter[fewer[r]] == instances[fewer[r]]);
            }
        }
        assert forall|r: int, s: int| 0 <= r < s < all.len() implies #[trigger] all[r]
            < #[trigger] all[s] by {
            assert(all[r] == fewer[r]);
            if s < fewer.len() {
                assert(all[s] == fewer[s]);
            }
        }
        assert forall|i: int|
            0 <= i < instances.len() && (visible is Some ==> visible->0.contains(
                drawn_at(#[trigger] instances[i]),
            )) implies all.contains(i) by {
            if i < instances.len() - 1 {
                assert(shorter[i] == instances[i]);
                assert(fewer.contains(i));
                assert(all[fewer.index_of(i)] == i);
            } else {
                assert(all[all.len() - 1] == i);
            }
        }
    }
}

proof fn lemma_outside_places(instances: Seq<TileDrawInstance>, coords: Set<TileCoord>)
    ensures
        crate::renderer::draw_builders::outside(instances, coords).len() == places_outside(
            instances,
            coords,
        ).len(),
        forall|r: int|
            0 <= r < places_outside(instances, coords).len()
                ==> #[trigger] crate::renderer::draw_builders::outside(instances, coords)[r]
                == instances[places_outside(instances, coords)[r]],
    decreases instances.len(),
{
    if instances.len() > 0 {
        let shorter = instances.drop_last();
        lemma_outside_places(shorter, coords);
        lemma_places_outside(shorter, coords);
        assert forall|r: int|
            0 <= r < places_outside(
                instances,
                coords,
            ).len() implies #[trigger] crate::renderer::draw_builders::outside(
            instances,
            coords,
        )[r] == instances[places_outside(instances, coords)[r]] by {
            if r < places_outside(shorter, coords).len() {
                assert(crate::renderer::draw_builders::outside(shorter, coords)[r]
                    == shorter[places_outside(shorter, coords)[r]]);
            }
        }
    }
}

proof fn lemma_all_places_shown(instances: Seq<TileDrawInstance>)
    ensures
        places_shown(instances, None).len() == instances.len(),
        forall|r: int| 0 <= r < instances.len() ==> #[trigger] places_shown(instances, None)[r] == r,
    decreases instances.len(),
{
    if instances.len() > 0 {
        let shorter = instances.drop_last();
        lemma_all_places_shown(shorter);
        assert forall|r: int| 0 <= r < instances.len() implies #[trigger] places_shown(
            instances,
            None,
        )[r] == r by {
            if r < shorter.len() {
                assert(places_shown(shorter, None)[r] == r);
            }
        }
    }
}

proof fn lemma_shown_places(instances: Seq<TileDrawInstance>, visible: TileSelection)
    ensures
        crate::renderer::draw_list::effective(instances, visible).len() == places_shown(
            instances,
            visible,
        ).len(),
        forall|r: int|
            0 <= r < places_shown(instances, visible).len()
                ==> #[trigger] crate::renderer::draw_list::effective(instances, visible)[r]
                == instances[places_shown(instances, visible)[r]],
    decreases instances.len(),
{
    if visible is None {
        lemma_all_places_shown(instances);
    } else if instances.len() > 0 {
        let shorter = instances.drop_last();
        let fewer = places_shown(shorter, visible);
        let shown = places_shown(instances, visible);
        lemma_shown_places(shorter, visible);
        lemma_places_shown(shorter, visible);
        assert forall|r: int|
            0 <= r < shown.len() implies #[trigger] crate::renderer::draw_list::effective(
            instances,
            visible,
        )[r] == instances[shown[r]] by {
            if r < fewer.len() {
                assert(crate::renderer::draw_list::effective(shorter, visible)[r]
                    == shorter[fewer[r]]);
                assert(shown[r] == fewer[r]);
            }
        }
    }
}

/// The instances draw the tiles of the list from where they are now, in order.
pub open spec fn draw_list_of<R: RenderDataResolver>(
    resolver: &R,
    source: ImageSource,
    blend: BlendMode,
    tiles: Seq<PlacedTile>,
    instances: Seq<TileDrawInstance>,
    start: int,
) -> bool {
    &&& instances.len() == start + tiles.len()
    &&& forall|i: int|
        0 <= i < tiles.len() ==> draws_tile(
            instances[start + i],
            blend,
            (#[trigger] tiles[i]).coord,
            resolver.address_of(source, tiles[i].key)->0,
        )
}

/// The cached instances can be kept where the layer is not dirty.
pub open spec fn is_usable(cached: LeafModel, blend: BlendMode, source: ImageSource) -> bool {
    cached.blend == blend && cached.image_source == source && cached.instances.len() > 0
}

/// What is cached for a layer, which is nothing if it was not drawn before.
pub open spec fn cached_leaf(
    model: CompositeModel,
    layer_id: u64,
    blend: BlendMode,
    source: ImageSource,
) -> LeafModel {
    if model.leaves.dom().contains(layer_id) {
        model.leaves[layer_id]
    } else {
        LeafModel { blend, image_source: source, instances: Seq::empty() }
    }
}

/// A layer of which some tiles are dirty, and whose cache can be used, keeps its
/// instances outside of them, in order; those of the tiles that the document lists
/// at the dirty positions follow. Any other layer that is built anew is drawn with
/// the tiles that the document lists, in order.
pub proof fn lemma_leaf_is_brought_up_to_date<R: RenderDataResolver>(
    resolver: &R,
    layer_id: u64,
    blend: BlendMode,
    source: ImageSource,
    dirty_tiles: Option<TileMaskModel>,
    visible_tiles: TileSelection,
    model: CompositeModel,
)
    requires
        crate::renderer::composite::resolves(resolver),
        dirty_tiles matches Some(TileMaskModel::Partial(tiles)) ==> lists_among(
            resolver,
            source,
            tiles,
        ),
    ensures
        ({
            let cached = cached_leaf(model, layer_id, blend, source);
            let leaf = crate::renderer::composite::leaf_rendered(
                resolver,
                layer_id,
                blend,
                source,
                true,
                dirty_tiles,
                visible_tiles,
                model,
            ).leaves[layer_id];
            &&& leaf.blend == blend
            &&& leaf.image_source == source
            &&& match dirty_tiles {
                Some(TileMaskModel::Partial(tiles)) if is_usable(cached, blend, source) => {
                    let kept = places_outside(cached.instances, tiles);
                    &&& draw_list_of(
                        resolver,
                        source,
                        blend,
                        resolver.tiles_among(source, tiles),
                        leaf.instances,
                        kept.len() as int,
                    )
                    &&& forall|r: int|
                        0 <= r < kept.len() ==> leaf.instances[r] == cached.instances[
                        #[trigger] kept[r]]
                },
                _ => draw_list_of(
                    resolver,
                    source,
                    blend,
                    resolver.tiles_of(source),
                    leaf.instances,
                    0,
                ),
            }
        }),
{
    let cached = cached_leaf(model, layer_id, blend, source);
    let leaf = crate::renderer::composite::leaf_rendered(
        resolver,
        layer_id,
        blend,
        source,
        true,
        dirty_tiles,
        visible_tiles,
        model,
    ).leaves[layer_id];
    match dirty_tiles {
        Some(TileMaskModel::Partial(tiles)) if is_usable(cached, blend, source) => {
            lemma_outside_places(cached.instances, tiles);
            let among = resolver.tiles_among(source, tiles);
            let kept = places_outside(cached.instances, tiles);
            assert(crate::renderer::draw_builders::all_resolve(resolver, source, among));
            if tiles == Set::<TileCoord>::empty() {
                if among.len() > 0 {
                    assert(among.contains(among[0]));
                }
            }
            assert forall|r: int| 0 <= r < kept.len() implies leaf.instances[r]
                == cached.instances[#[trigger] kept[r]] by {
                assert(crate::renderer::draw_builders::outside(cached.instances, tiles)[r]
                    == cached.instances[kept[r]]);
            }
            assert forall|i: int| 0 <= i < among.len() implies draws_tile(
                leaf.instances[kept.len() + i],
                blend,
                (#[trigger] among[i]).coord,
                resolver.address_of(source, among[i].key)->0,
            ) by {}
        },
        _ => {
            let listed = resolver.tiles_of(source);
            assert(crate::renderer::draw_builders::all_resolve(resolver, source, listed));
            assert forall|i: int| 0 <= i < listed.len() implies draws_tile(
                leaf.instances[0 + i],
                blend,
                (#[trigger] listed[i]).coord,
                resolver.address_of(source, listed[i].key)->0,
            ) by {}
        },
    }
}

/// After a layer is drawn of which some tiles are dirty, its instances draw, at
/// every dirty position that the document lists a tile at, that tile from where it
/// is now, and nothing else at these positions. If the cache held what the document
/// lists outside of the dirty tiles, then the instances are those of all tiles that
/// the document lists, as if everything had been built anew.
pub proof fn lemma_dirty_tiles_are_drawn_anew<R: RenderDataResolver>(
    resolver: &R,
    layer_id: u64,
    blend: BlendMode,
    source: ImageSource,
    tiles: Set<TileCoord>,
    visible_tiles: TileSelection,
    model: CompositeModel,
)
    requires
        crate::renderer::composite::resolves(resolver),
        lists_among(resolver, source, tiles),
    ensures
        ({
            let cached = cached_leaf(model, layer_id, blend, source);
            let after = crate::renderer::composite::leaf_rendered(
                resolver,
                layer_id,
                blend,
                source,
                true,
                Some(TileMaskModel::Partial(tiles)),
                visible_tiles,
                model,
            ).leaves[layer_id].instances;
            let anew = crate::renderer::composite::leaf_rendered(
                resolver,
                layer_id,
                blend,
                source,
                true,
                None,
                visible_tiles,
                model,
            ).leaves[layer_id].instances;
            &&& forall|i: int|
                0 <= i < resolver.tiles_of(source).len() && tiles.contains(
                    (#[trigger] resolver.tiles_of(source)[i]).coord,
                ) ==> exists|k: int|
                    0 <= k < after.len() && draws_tile(
                        #[trigger] after[k],
                        blend,
                        resolver.tiles_of(source)[i].coord,
                        resolver.address_of(source, resolver.tiles_of(source)[i].key)->0,
                    )
            &&& forall|k: int|
                0 <= k < after.len() && tiles.contains(drawn_at(#[trigger] after[k]))
                    ==> is_current(resolver, source, blend, after[k])
            &&& (forall|instance: TileDrawInstance|
                !tiles.contains(drawn_at(instance)) ==> (#[trigger] cached.instances.contains(
                    instance,
                ) <==> is_current(resolver, source, blend, instance))) ==> forall|
                instance: TileDrawInstance,
            |
                (#[trigger] after.contains(instance) <==> is_current(
                    resolver,
                    source,
                    blend,
                    instance,
                )) && (after.contains(instance) <==> anew.contains(instance))
        }),
{
    let cached = cached_leaf(model, layer_id, blend, source);
    let dirty = Some(TileMaskModel::Partial(tiles));
    let after = crate::renderer::composite::leaf_rendered(
        resolver,
        layer_id,
        blend,
        source,
        true,
        dirty,
        visible_tiles,
        model,
    ).leaves[layer_id].instances;
    let anew = crate::renderer::composite::leaf_rendered(
        resolver,
        layer_id,
        blend,
        source,
        true,
        None,
        visible_tiles,
        model,
    ).leaves[layer_id].instances;
    let listed = resolver.tiles_of(source);
    let among = resolver.tiles_among(source, tiles);
    lemma_leaf_is_brought_up_to_date(
        resolver,
        layer_id,
        blend,
        source,
        dirty,
        visible_tiles,
        model,
    );
    lemma_leaf_is_brought_up_to_date(
        resolver,
        layer_id,
        blend,
        source,
        None,
        visible_tiles,
        model,
    );
    assert(crate::renderer::draw_builders::all_resolve(resolver, source, listed));
    assert(crate::renderer::draw_builders::all_resolve(resolver, source, among));
    assert forall|instance: TileDrawInstance| #[trigger]
        anew.contains(instance) <==> is_current(resolver, source, blend, instance) by {
        if anew.contains(instance) {
            let i = anew.index_of(instance);
            assert(draws_tile(
                anew[0 + i],
                blend,
                listed[i].coord,
                resolver.address_of(source, listed[i].key)->0,
            ));
        }
        if is_current(resolver, source, blend, instance) {
            let i = choose|i: int|
                0 <= i < listed.len() && draws_tile(
                    instance,
                    blend,
                    (#[trigger] listed[i]).coord,
                    resolver.address_of(source, listed[i].key)->0,
                );
            assert(draws_tile(
                anew[0 + i],
                blend,
                listed[i].coord,
                resolver.address_of(source, listed[i].key)->0,
            ));
            assert(anew[i] == instance);
        }
    }
    if is_usable(cached, blend, source) {
        let kept = places_outside(cached.instances, tiles);
        lemma_places_outside(cached.instances, tiles);
        assert forall|i: int|
            0 <= i < listed.len() && tiles.contains((#[trigger] listed[i]).coord) implies exists|
            k: int,
        |
            0 <= k < after.len() && draws_tile(
                #[trigger] after[k],
                blend,
                listed[i].coord,
                resolver.address_of(source, listed[i].key)->0,
            ) by {
            assert(listed.contains(listed[i]));
            assert(among.contains(listed[i]));
            let m = among.index_of(listed[i]);
            assert(draws_tile(
                after[kept.len() + m],
                blend,
                among[m].coord,
                resolver.address_of(source, among[m].key)->0,
            ));
        }
        assert forall|k: int| 0 <= k < after.len() && k >= kept.len() implies is_current(
            resolver,
            source,
            blend,
            #[trigger] after[k],
        ) && tiles.contains(drawn_at(after[k])) by {
            let m = k - kept.len();
            assert(draws_tile(
                after[kept.len() + m],
                blend,
                among[m].coord,
                resolver.address_of(source, among[m].key)->0,
            ));
            assert(among.contains(among[m]));
            assert(listed.contains(among[m]));
            let i = listed.index_of(among[m]);
            assert(listed[i] == among[m]);
        }
        assert forall|k: int| 0 <= k < kept.len() implies !tiles.contains(
            drawn_at(#[trigger] after[k]),
        ) && cached.instances.contains(after[k]) by {
            assert(after[k] == cached.instances[kept[k]]);
        }
        if forall|instance: TileDrawInstance|
            !tiles.contains(drawn_at(instance)) ==> (#[trigger] cached.instances.contains(instance)
                <==> is_current(resolver, source, blend, instance)) {
            assert forall|instance: TileDrawInstance| #[trigger]
                after.contains(instance) <==> is_current(resolver, source, blend, instance) by {
                if after.contains(instance) {
                    let k = after.index_of(instance);
                    assert(after[k] == instance);
                }
                if is_current(resolver, source, blend, instance) {
                    if tiles.contains(drawn_at(instance)) {
                        let i = choose|i: int|
                            0 <= i < listed.len() && draws_tile(
                                instance,
                                blend,
                                (#[trigger] listed[i]).coord,
                                resolver.address_of(source, listed[i].key)->0,
                            );
                        assert(drawn_at(instance) == listed[i].coord);
                        let k = choose|k: int|
                            0 <= k < after.len() && draws_tile(
                                #[trigger] after[k],
                                blend,
                                listed[i].coord,
                                resolver.address_of(source, listed[i].key)->0,
                            );
                        assert(after[k] == instance);
                    } else {
                        assert(cached.instances.contains(instance));
                        let p = cached.instances.index_of(instance);
                        assert(kept.contains(p));
                        let r = kept.index_of(p);
                        assert(after[r] == cached.instances[kept[r]]);
                    }
                }
            }
        }
    } else {
        assert(after =~= anew) by {
            assert forall|i: int| 0 <= i < listed.len() implies after[i] == anew[i] by {
                assert(draws_tile(
                    anew[0 + i],
                    blend,
                    listed[i].coord,
                    resolver.address_of(source, listed[i].key)->0,
                ));
                assert(draws_tile(
                    after[0 + i],
                    blend,
                    listed[i].coord,
                    resolver.address_of(source, listed[i].key)->0,
                ));
            }
        }
        assert forall|i: int|
            0 <= i < listed.len() && tiles.contains((#[trigger] listed[i]).coord) implies exists|
            k: int,
        |
            0 <= k < after.len() && draws_tile(
                #[trigger] after[k],
                blend,
                listed[i].coord,
                resolver.address_of(source, listed[i].key)->0,
            ) by {
            assert(draws_tile(
                after[0 + i],
                blend,
                listed[i].coord,
                resolver.address_of(source, listed[i].key)->0,
            ));
        }
        assert forall|k: int| 0 <= k < after.len() implies is_current(
            resolver,
            source,
            blend,
            #[trigger] after[k],
        ) by {
            assert(anew.contains(after[k]));
        }
    }
}

/// The steps go on with one that draws the instances at the selected positions, in
/// order and from this atlas, or not at all if there are none.
pub open spec fn goes_on_drawing(
    before: Seq<ActionModel>,
    after: Seq<ActionModel>,
    source_atlas: DrawAtlas,
    instances: Seq<TileDrawInstance>,
    visible: TileSelection,
) -> bool {
    let shown = places_shown(instances, visible);
    if shown.len() == 0 {
        after == before
    } else {
        &&& after.len() == before.len() + 1
        &&& after.drop_last() == before
        &&& after.last() matches ActionModel::Draw { atlas, instances: drawn }
        &&& atlas == source_atlas
        &&& drawn.len() == shown.len()
        &&& forall|r: int| 0 <= r < shown.len() ==> drawn[r] == instances[#[trigger] shown[r]]
    }
}

/// The steps after instances have been drawn go on with those at the selected
/// positions.
pub proof fn lemma_drawn_steps(
    before: Seq<ActionModel>,
    source_atlas: DrawAtlas,
    instances: Seq<TileDrawInstance>,
    visible: TileSelection,
)
    ensures
        goes_on_drawing(
            before,
            crate::renderer::composite::drawn(
                before,
                source_atlas,
                crate::renderer::draw_list::effective(instances, visible),
            ),
            source_atlas,
            instances,
            visible,
        ),
{
    let drawn = crate::renderer::draw_list::effective(instances, visible);
    let after = crate::renderer::composite::drawn(before, source_atlas, drawn);
    let shown = places_shown(instances, visible);
    lemma_shown_places(instances, visible);
    if shown.len() > 0 {
        assert(after.drop_last() =~= before);
        assert forall|r: int| 0 <= r < shown.len() implies drawn[r] == instances[
        #[trigger] shown[r]] by {}
    }
}

/// Drawing a layer draws its visible instances from the layer atlas, and changes
/// nothing but what is cached for the layer, which stays as it is unless the layer
/// is built anew.
pub proof fn lemma_leaf_draws_its_visible_tiles<R: RenderDataResolver>(
    resolver: &R,
    layer_id: u64,
    blend: BlendMode,
    source: ImageSource,
    should_rebuild: bool,
    dirty_tiles: Option<TileMaskModel>,
    visible_tiles: TileSelection,
    model: CompositeModel,
)
    ensures
        ({
            let after = crate::renderer::composite::leaf_rendered(
                resolver,
                layer_id,
                blend,
                source,
                should_rebuild,
                dirty_tiles,
                visible_tiles,
                model,
            );
            &&& goes_on_drawing(
                model.actions,
                after.actions,
                DrawAtlas::Layers,
                after.leaves[layer_id].instances,
                visible_tiles,
            )
            &&& after.leaves.dom() == model.leaves.dom().insert(layer_id)
            &&& forall|id: u64| id != layer_id ==> #[trigger] after.leaves[id] == model.leaves[id]
            &&& !should_rebuild ==> after.leaves[layer_id] == cached_leaf(
                model,
                layer_id,
                blend,
                source,
            )
            &&& after.groups == model.groups
            &&& after.addresses == model.addresses
            &&& after.fresh == model.fresh
        }),
{
    let after = crate::renderer::composite::leaf_rendered(
        resolver,
        layer_id,
        blend,
        source,
        should_rebuild,
        dirty_tiles,
        visible_tiles,
        model,
    );
    lemma_drawn_steps(
        model.actions,
        DrawAtlas::Layers,
        after.leaves[layer_id].instances,
        visible_tiles,
    );
    assert(after.leaves.dom() =~= model.leaves.dom().insert(layer_id));
}

} // verus!
