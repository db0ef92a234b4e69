//! What a render command draws, in terms of the tiles that it names.
use vstd::prelude::*;

use crate::gpu_runtime::atlas_runtime::{
    AtlasAddress, AtlasResolvedAddress, BackendBinding, TextureFormat,
};
use crate::gpu_runtime::commands::RenderSource;
use crate::gpu_runtime::render_passes::{
    PassModel, PreparedRenderSource, RenderExecutorError, TileBinding, TileModel,
};
use crate::scalar::FloatBits;
use crate::tiles::TileKey;

verus! {

/// Every backend can be addressed.
pub open spec fn all_addressable(backends: Seq<BackendBinding>) -> bool {
    forall|id: int|
        0 <= id < backends.len() ==> crate::gpu_runtime::atlas_runtime::addressable(
            (#[trigger] backends[id]).layout,
        )
}

/// The backend of the key is registered.
pub open spec fn registered(backends: Seq<BackendBinding>, key: TileKey) -> bool {
    (key.backend as int) < backends.len()
}

/// The place is that of the tile: it is in the texture of the tile's backend, and
/// the slot of the key can be read off it. Slots below half of all numbers are on
/// the even layers, the others on the odd ones; those of one half are numbered row
/// by row, layer by layer, and each is a square of 128 texels.
pub open spec fn lies_at(
    backends: Seq<BackendBinding>,
    key: TileKey,
    place: AtlasResolvedAddress,
) -> bool {
    let edge = backends[key.backend as int].layout.tiles_per_edge as int;
    let (x, y) = (place.address.tile_offset.0 as int, place.address.tile_offset.1 as int);
    let half: int = if key.slot < 0x8000_0000 {
        0
    } else {
        1
    };
    &&& registered(backends, key)
    &&& place.backend_id == key.backend
    &&& place.format == backends[key.backend as int].format
    &&& 0 <= x < edge
    &&& 0 <= y < edge
    &&& place.address.texel_offset.0 == 128 * x
    &&& place.address.texel_offset.1 == 128 * y
    &&& place.address.layer as int % 2 == half
    &&& key.slot - half * 0x8000_0000 == (place.address.layer as int / 2) * (edge * edge) + y * edge
        + x
}

/// The place with its corner at these texels.
pub open spec fn at_corner(
    backend_id: u8,
    format: TextureFormat,
    layer: u32,
    x: u32,
    y: u32,
) -> AtlasResolvedAddress {
    AtlasResolvedAddress {
        backend_id,
        format,
        address: AtlasAddress {
            layer,
            tile_offset: ((x / 128) as u32, (y / 128) as u32),
            texel_offset: (x, y),
        },
    }
}

/// A tile is found exactly if its backend is registered, and then where it lies.
pub proof fn lemma_tiles_are_found_where_they_lie(
    backends: Seq<BackendBinding>,
    key: TileKey,
)
    requires
        all_addressable(backends),
    ensures
        match crate::gpu_runtime::atlas_runtime::location(backends, key) {
            Some(place) => lies_at(backends, key, place),
            None => !registered(backends, key),
        },
        match crate::gpu_runtime::render_passes::found(backends, key) {
            Ok(place) => lies_at(backends, key, place),
            Err(error) => !registered(backends, key) && error
                == (RenderExecutorError::MissingTileBackend { tile_key: key }),
        },
{
    if registered(backends, key) {
        crate::gpu_runtime::atlas_runtime::lemma_slot_of_address(
            backends[key.backend as int].layout,
            key.slot,
        );
    }
}

/// Two tiles of one backend lie at one place only if they are in one slot.
pub proof fn lemma_a_place_is_that_of_one_slot(
    backends: Seq<BackendBinding>,
    left: TileKey,
    right: TileKey,
    place: AtlasResolvedAddress,
)
    requires
        lies_at(backends, left, place),
        lies_at(backends, right, place),
    ensures
        left.backend == right.backend,
        left.slot == right.slot,
{
}

/// What is bound reads the tile of the key, with this opacity, with this tint if
/// there is one, and against the earlier state if it is given and its backend is
/// registered.
pub open spec fn reads(
    backends: Seq<BackendBinding>,
    binding: TileBinding,
    key: TileKey,
    opacity: FloatBits,
    rgb: Option<[FloatBits; 3]>,
    origin_key: Option<TileKey>,
) -> bool {
    let params = binding.params;
    &&& lies_at(backends, key, binding.source)
    &&& params.src_layer == 0
    &&& (params.src_x, params.src_y) == binding.source.address.texel_offset
    &&& params.opacity == opacity
    &&& match rgb {
        Some(color) => params.has_tint == 1 && params.tint_r == color@[0] && params.tint_g
            == color@[1] && params.tint_b == color@[2],
        None => params.has_tint == 0,
    }
    &&& params.origin_layer == 0
    &&& if origin_key is Some && registered(backends, origin_key->0) {
        &&& params.has_origin == 1
        &&& lies_at(backends, origin_key->0, binding.origin)
        &&& (params.origin_x, params.origin_y) == binding.origin.address.texel_offset
    } else {
        params.has_origin == 0 && binding.origin == binding.source
    }
}

/// Binding a tile succeeds exactly if its backend is registered, and then the tile
/// is read as it is asked for.
pub proof fn lemma_bound_tiles_are_read_as_asked(
    backends: Seq<BackendBinding>,
    key: TileKey,
    opacity: FloatBits,
    rgb: Option<[FloatBits; 3]>,
    origin_key: Option<TileKey>,
)
    requires
        all_addressable(backends),
    ensures
        match crate::gpu_runtime::render_passes::binding(backends, key, opacity, rgb, origin_key) {
            Ok(binding) => reads(backends, binding, key, opacity, rgb, origin_key),
            Err(error) => !registered(backends, key) && error
                == (RenderExecutorError::MissingTileBackend { tile_key: key }),
        },
{
    lemma_tiles_are_found_where_they_lie(backends, key);
    if let Some(origin) = origin_key {
        lemma_tiles_are_found_where_they_lie(backends, origin);
    }
}

/// The layers that have a tile for the target with this index, from the lowest on.
pub open spec fn suppliers(from: Seq<RenderSource>, index: int) -> Seq<int>
    decreases from.len(),
{
    if from.len() == 0 {
        Seq::empty()
    } else {
        let lower = suppliers(from.drop_last(), index);
        if index < from.last().tile_keys@.len() && from.last().tile_keys@[index]
            != TileKey::nothing() {
            lower.push(from.len() - 1)
        } else {
            lower
        }
    }
}

/// The layers that have a tile for a target ascend, and are exactly those that
/// have one.
pub proof fn lemma_suppliers(from: Seq<RenderSource>, index: int)
    ensures
        forall|r: int|
            0 <= r < suppliers(from, index).len() ==> 0 <= (#[trigger] suppliers(from, index)[r])
                < from.len() && index < from[suppliers(from, index)[r]].tile_keys@.len()
                && from[suppliers(from, index)[r]].tile_keys@[index] != TileKey::nothing(),
        forall|r: int, s: int|
            0 <= r < s < suppliers(from, index).len() ==> #[trigger] suppliers(from, index)[r]
                < #[trigger] suppliers(from, index)[s],
        forall|layer: int|
            0 <= layer < from.len() && index < (#[trigger] from[layer]).tile_keys@.len()
                && from[layer].tile_keys@[index] != TileKey::nothing() ==> suppliers(
                from,
                index,
            ).contains(layer),
    decreases from.len(),
{
    if from.len() > 0 {
        let lower = suppliers(from.drop_last(), index);
        let all = suppliers(from, index);
        lemma_suppliers(from.drop_last(), index);
        assert forall|layer: int|
            0 <= layer < from.len() && index < (#[trigger] from[layer]).tile_keys@.len()
                && from[layer].tile_keys@[index] != TileKey::nothing() implies all.contains(
            layer,
        ) by {
            if layer < from.len() - 1 {
                assert(from.drop_last()[layer] == from[layer]);
                assert(lower.contains(layer));
                let r = lower.index_of(layer);
                assert(all[r] == layer);
            } else {
                assert(all[all.len() - 1] == layer);
            }
        }
        assert forall|r: int| 0 <= r < all.len() implies 0 <= (#[trigger] all[r]) < from.len()
            && index < from[all[r]].tile_keys@.len() && from[all[r]].tile_keys@[index]
            != TileKey::nothing() by {
            if r < lower.len() {
                assert(all[r] == lower[r]);
                assert(from.drop_last()[lower[r]] == from[lower[r]]);
            }
        }
        assert forall|r: int, s: int| 0 <= r < s < all.len() implies #[trigger] all[r]
            < #[trigger] all[s] by {
            assert(all[r] == lower[r]);
            if s < lower.len() {
                assert(all[s] == lower[s]);
            }
        }
    }
}

/// The source draws the layer's tile for the target with this index: with the
/// opacity and the blend mode of the layer, and as it is.
pub open spec fn draws_layer(
    backends: Seq<BackendBinding>,
    source: PreparedRenderSource,
    layer: RenderSource,
    index: int,
) -> bool {
    &&& reads(
        backends,
        source.binding,
        layer.tile_keys@[index],
        layer.config.opacity,
        None,
        None,
    )
    &&& layer.config.blend_mode is Normal ==> source.pipeline is ImageNormal
    &&& layer.config.blend_mode is Multiply ==> source.pipeline is ImageMultiply
}

/// The target is the tile with this index and key, and the layers that have a tile
/// for it are drawn into it, each once and the lowest first.
pub open spec fn draws_target(
    backends: Seq<BackendBinding>,
    from: Seq<RenderSource>,
    index: int,
    key: TileKey,
    tile: TileModel,
) -> bool {
    &&& key != TileKey::nothing()
    &&& lies_at(
        backends,
        key,
        at_corner(
            tile.pass_key.backend_id,
            tile.pass_key.format,
            tile.pass_key.layer,
            tile.scissor_x,
            tile.scissor_y,
        ),
    )
    &&& tile.sources.len() == suppliers(from, index).len()
    &&& tile.sources.len() > 0
    &&& forall|r: int|
        0 <= r < tile.sources.len() ==> draws_layer(
            backends,
            #[trigger] tile.sources[r],
            from[suppliers(from, index)[r]],
            index,
        )
}

pub proof fn lemma_sources_draw_layers(
    backends: Seq<BackendBinding>,
    from: Seq<RenderSource>,
    index: int,
)
    requires
        all_addressable(backends),
        index >= 0,
    ensures
        match crate::gpu_runtime::render_passes::drawn_sources(backends, from, index) {
            Ok(sources) => {
                &&& sources.len() == suppliers(from, index).len()
                &&& forall|r: int|
                    0 <= r < sources.len() ==> draws_layer(
                        backends,
                        #[trigger] sources[r],
                        from[suppliers(from, index)[r]],
                        index,
                    )
            },
            Err(error) => exists|layer: int|
                0 <= layer < from.len() && index < (#[trigger] from[layer]).tile_keys@.len()
                    && !registered(backends, from[layer].tile_keys@[index]) && error == (
                RenderExecutorError::MissingTileBackend { tile_key: from[layer].tile_keys@[index] }),
        },
    decreases from.len(),
{
    if from.len() > 0 {
        let shorter = from.drop_last();
        let last = from.last();
        lemma_sources_draw_layers(backends, shorter, index);
        lemma_suppliers(shorter, index);
        match crate::gpu_runtime::render_passes::drawn_sources(backends, shorter, index) {
            Ok(lower) => {
                assert forall|r: int| 0 <= r < lower.len() implies draws_layer(
                    backends,
                    #[trigger] lower[r],
                    from[suppliers(shorter, index)[r]],
                    index,
                ) by {
                    let layer = suppliers(shorter, index)[r];
                    assert(shorter[layer] == from[layer]);
                }
                if index < last.tile_keys@.len() && last.tile_keys@[index] != TileKey::nothing() {
                    lemma_bound_tiles_are_read_as_asked(
                        backends,
                        last.tile_keys@[index],
                        last.config.opacity,
                        None,
                        None,
                    );
                    assert(from[from.len() - 1] == last);
                    if let Ok(sources) = crate::gpu_runtime::render_passes::drawn_sources(
                        backends,
                        from,
                        index,
                    ) {
                        assert forall|r: int| 0 <= r < sources.len() implies draws_layer(
                            backends,
                            #[trigger] sources[r],
                            from[suppliers(from, index)[r]],
                            index,
                        ) by {
                            if r < lower.len() {
                                assert(sources[r] == lower[r]);
                                assert(suppliers(from, index)[r] == suppliers(shorter, index)[r]);
                            }
                        }
                    }
                }
            },
            Err(error) => {
                let layer = choose|layer: int|
                    0 <= layer < shorter.len() && index < (#[trigger] shorter[layer]).tile_keys@.len()
                        && !registered(backends, shorter[layer].tile_keys@[index]) && error == (
                    RenderExecutorError::MissingTileBackend {
                        tile_key: shorter[layer].tile_keys@[index],
                    });
                assert(shorter[layer] == from[layer]);
            },
        }
    }
}

/// One of the passes draws the target.
pub open spec fn has_target(passes: Seq<PassModel>, tile: TileModel) -> bool {
    exists|p: int, k: int|
        0 <= p < passes.len() && 0 <= k < passes[p].tiles.len() && #[trigger] passes[p].tiles[k]
            == tile
}

/// How many targets the passes draw.
pub open spec fn target_total(passes: Seq<PassModel>) -> int
    decreases passes.len(),
{
    if passes.len() == 0 {
        0
    } else {
        target_total(passes.drop_last()) + passes.last().tiles.len()
    }
}

proof fn lemma_target_total_updated(passes: Seq<PassModel>, index: int, pass: PassModel)
    requires
        0 <= index < passes.len(),
    ensures
        target_total(passes.update(index, pass)) == target_total(passes)
            - passes[index].tiles.len() + pass.tiles.len(),
    decreases passes.len(),
{
    if index < passes.len() - 1 {
        lemma_target_total_updated(passes.drop_last(), index, pass);
        assert(passes.update(index, pass).drop_last() =~= passes.drop_last().update(index, pass));
    } else {
        assert(passes.update(index, pass).drop_last() =~= passes.drop_last());
    }
}

proof fn lemma_filed(passes: Seq<PassModel>, tile: TileModel)
    ensures
        forall|other: TileModel| #[trigger]
            has_target(crate::gpu_runtime::render_passes::filed(passes, tile), other) <==> has_target(
                passes,
                other,
            ) || other == tile,
        target_total(crate::gpu_runtime::render_passes::filed(passes, tile)) == target_total(passes)
            + 1,
{
    let after = crate::gpu_runtime::render_passes::filed(passes, tile);
    crate::gpu_runtime::render_passes::lemma_pass_index(passes, tile.pass_key);
    let index = crate::gpu_runtime::render_passes::pass_index(passes, tile.pass_key);
    if index < passes.len() {
        lemma_target_total_updated(passes, index, after[index]);
        assert(after[index].tiles[passes[index].tiles.len() as int] == tile);
    } else {
        assert(after.drop_last() =~= passes);
        assert(after[passes.len() as int].tiles[0] == tile);
    }
    assert(has_target(after, tile));
    assert forall|other: TileModel| #[trigger] has_target(after, other) <==> has_target(
        passes,
        other,
    ) || other == tile by {
        if has_target(passes, other) {
            let (p, k) = choose|p: int, k: int|
                0 <= p < passes.len() && 0 <= k < passes[p].tiles.len()
                    && #[trigger] passes[p].tiles[k] == other;
            assert(after[p].tiles[k] == other);
        }
        if has_target(after, other) && other != tile {
            let (p, k) = choose|p: int, k: int|
                0 <= p < after.len() && 0 <= k < after[p].tiles.len() && #[trigger] after[p].tiles[k]
                    == other;
            assert(p < passes.len());
            assert(passes[p].tiles[k] == other);
        }
    }
}

/// The keys among the targets that name a tile, in order.
pub open spec fn named_keys(to: Seq<TileKey>) -> Seq<TileKey>
    decreases to.len(),
{
    if to.len() == 0 {
        Seq::empty()
    } else if to.last() == TileKey::nothing() {
        named_keys(to.drop_last())
    } else {
        named_keys(to.drop_last()).push(to.last())
    }
}

/// How many of the targets are drawn: those that name a tile and that a layer has
/// a tile for.
pub open spec fn drawn_count(from: Seq<RenderSource>, to: Seq<TileKey>) -> int
    decreases to.len(),
{
    if to.len() == 0 {
        0
    } else {
        drawn_count(from, to.drop_last()) + if to.last() != TileKey::nothing() && suppliers(
            from,
            to.len() - 1,
        ).len() > 0 {
            1int
        } else {
            0
        }
    }
}

/// The target with this index is drawn.
pub open spec fn is_drawn(
    backends: Seq<BackendBinding>,
    from: Seq<RenderSource>,
    to: Seq<TileKey>,
    passes: Seq<PassModel>,
    index: int,
) -> bool {
    exists|tile: TileModel|
        has_target(passes, tile) && #[trigger] draws_target(backends, from, index, to[index], tile)
}

/// What is drawn is one of the targets.
pub open spec fn is_asked_for(
    backends: Seq<BackendBinding>,
    from: Seq<RenderSource>,
    to: Seq<TileKey>,
    tile: TileModel,
) -> bool {
    exists|index: int|
        0 <= index < to.len() && #[trigger] draws_target(backends, from, index, to[index], tile)
}

/// A render command draws every target that a layer has a tile for, once, and
/// nothing else: into the target's own square the tiles of all layers that have
/// one for it, the lowest first, each with the opacity and the blend mode of its
/// layer. All targets that name a tile are cleared, in order.
pub proof fn lemma_render_command_draws_its_layers(
    backends: Seq<BackendBinding>,
    from: Seq<RenderSource>,
    to: Seq<TileKey>,
)
    requires
        all_addressable(backends),
        crate::gpu_runtime::render_passes::prepared(backends, from, to) is Ok,
    ensures
        ({
            let plan = crate::gpu_runtime::render_passes::prepared(backends, from, to)->Ok_0;
            &&& forall|index: int|
                0 <= index < to.len() && to[index] != TileKey::nothing() && (#[trigger] suppliers(
                    from,
                    index,
                )).len() > 0 ==> is_drawn(backends, from, to, plan.passes, index)
            &&& forall|tile: TileModel| #[trigger]
                has_target(plan.passes, tile) ==> is_asked_for(backends, from, to, tile)
            &&& target_total(plan.passes) == drawn_count(from, to)
            &&& plan.clears.len() == named_keys(to).len()
            &&& forall|i: int|
                0 <= i < plan.clears.len() ==> lies_at(
                    backends,
                    named_keys(to)[i],
                    #[trigger] plan.clears[i],
                )
        }),
    decreases to.len(),
{
    let plan = crate::gpu_runtime::render_passes::prepared(backends, from, to)->Ok_0;
    if to.len() == 0 {
        assert(plan.passes.len() == 0);
    } else {
        let shorter = to.drop_last();
        let last = to.len() - 1;
        let before = crate::gpu_runtime::render_passes::prepared(backends, from, shorter)->Ok_0;
        lemma_render_command_draws_its_layers(backends, from, shorter);
        lemma_tiles_are_found_where_they_lie(backends, to.last());
        lemma_sources_draw_layers(backends, from, last);
        assert forall|tile: TileModel| #[trigger] has_target(before.passes, tile) implies
            is_asked_for(backends, from, to, tile) by {
            let index = choose|index: int|
                0 <= index < shorter.len() && #[trigger] draws_target(
                    backends,
                    from,
                    index,
                    shorter[index],
                    tile,
                );
            assert(shorter[index] == to[index]);
            assert(draws_target(backends, from, index, to[index], tile));
        }
        let sources = suppliers(from, last);
        if to.last() != TileKey::nothing() && sources.len() > 0 {
            let place = crate::gpu_runtime::render_passes::found(backends, to.last())->Ok_0;
            let tile = TileModel {
                pass_key: crate::gpu_runtime::render_passes::RenderPassKey::at(place),
                scissor_x: place.address.texel_offset.0,
                scissor_y: place.address.texel_offset.1,
                sources: crate::gpu_runtime::render_passes::drawn_sources(
                    backends,
                    from,
                    last,
                )->Ok_0,
            };
            lemma_filed(before.passes, tile);
            assert(at_corner(
                tile.pass_key.backend_id,
                tile.pass_key.format,
                tile.pass_key.layer,
                tile.scissor_x,
                tile.scissor_y,
            ) == place);
            assert(draws_target(backends, from, last, to[last], tile));
            assert(has_target(plan.passes, tile));
        }
        assert forall|index: int|
            0 <= index < to.len() && to[index] != TileKey::nothing() && (#[trigger] suppliers(
                from,
                index,
            )).len() > 0 implies is_drawn(backends, from, to, plan.passes, index) by {
            if index < last {
                assert(shorter[index] == to[index]);
                assert(is_drawn(backends, from, shorter, before.passes, index));
                let tile = choose|tile: TileModel|
                    has_target(before.passes, tile) && #[trigger] draws_target(
                        backends,
                        from,
                        index,
                        shorter[index],
                        tile,
                    );
                assert(has_target(plan.passes, tile));
                assert(draws_target(backends, from, index, to[index], tile));
            }
        }
        assert forall|i: int| 0 <= i < plan.clears.len() implies lies_at(
            backends,
            named_keys(to)[i],
            #[trigger] plan.clears[i],
        ) by {
            if i < before.clears.len() {
                assert(plan.clears[i] == before.clears[i]);
            }
        }
    }
}

} // verus!
