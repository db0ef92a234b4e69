//! When render commands are carried out, and how far.
use vstd::prelude::*;

use crate::gpu_runtime::atlas_runtime::BackendBinding;
use crate::gpu_runtime::commands::{MaterializeParametricCmd, RenderCmd, RenderSource};
use crate::gpu_runtime::render_passes::{CmdModel, RenderExecutorError, TileModel};
use crate::tiles::TileKey;

verus! {

/// The backends of all tiles that a command has for its targets are registered.
pub open spec fn all_registered(
    backends: Seq<BackendBinding>,
    from: Seq<RenderSource>,
    to: Seq<TileKey>,
) -> bool {
    &&& forall|index: int|
        0 <= index < to.len() && #[trigger] to[index] != TileKey::nothing() ==> crate::gpu_runtime::render_laws::registered(
            backends,
            to[index],
        )
    &&& forall|layer: int, index: int|
        0 <= layer < from.len() && 0 <= index < to.len() && index
            < from[layer].tile_keys@.len() && to[index] != TileKey::nothing()
            && from[layer].tile_keys@[index] != TileKey::nothing() ==> crate::gpu_runtime::render_laws::registered(
            backends,
            #[trigger] from[layer].tile_keys@[index],
        )
}

/// The tile is a target of a command, or one that a layer has for a target.
pub open spec fn is_tile_of(from: Seq<RenderSource>, to: Seq<TileKey>, key: TileKey) -> bool {
    ||| to.contains(key)
    ||| exists|layer: int, index: int|
        0 <= layer < from.len() && 0 <= index < to.len() && index < from[layer].tile_keys@.len()
            && #[trigger] from[layer].tile_keys@[index] == key
}

proof fn lemma_unregistered_source(
    backends: Seq<BackendBinding>,
    from: Seq<RenderSource>,
    index: int,
    layer: int,
)
    requires
        0 <= index,
        0 <= layer < from.len(),
        index < from[layer].tile_keys@.len(),
        from[layer].tile_keys@[index] != TileKey::nothing(),
        !crate::gpu_runtime::render_laws::registered(backends, from[layer].tile_keys@[index]),
    ensures
        crate::gpu_runtime::render_passes::drawn_sources(backends, from, index) is Err,
    decreases from.len(),
{
    if layer < from.len() - 1 {
        assert(from.drop_last()[layer] == from[layer]);
        lemma_unregistered_source(backends, from.drop_last(), index, layer);
    }
}

/// A render command can be carried out exactly if the backends of its targets and of
/// the tiles that its layers have for them are registered. Otherwise a tile of the
/// command is named whose backend is not.
pub proof fn lemma_render_command_needs_its_backends(
    backends: Seq<BackendBinding>,
    from: Seq<RenderSource>,
    to: Seq<TileKey>,
)
    requires
        crate::gpu_runtime::render_laws::all_addressable(backends),
    ensures
        match crate::gpu_runtime::render_passes::prepared(backends, from, to) {
            Ok(_) => all_registered(backends, from, to),
            Err(error) => {
                &&& !all_registered(backends, from, to)
                &&& error matches RenderExecutorError::MissingTileBackend { tile_key }
                &&& !crate::gpu_runtime::render_laws::registered(backends, tile_key)
                &&& is_tile_of(from, to, tile_key)
            },
        },
    decreases to.len(),
{
    if to.len() > 0 {
        let shorter = to.drop_last();
        let last = to.len() - 1;
        lemma_render_command_needs_its_backends(backends, from, shorter);
        crate::gpu_runtime::render_laws::lemma_tiles_are_found_where_they_lie(backends, to.last());
        crate::gpu_runtime::render_laws::lemma_sources_draw_layers(backends, from, last);
        match crate::gpu_runtime::render_passes::prepared(backends, from, shorter) {
            Err(error) => {
                let tile_key = error->MissingTileBackend_tile_key;
                if shorter.contains(tile_key) {
                    assert(to[shorter.index_of(tile_key)] == tile_key);
                } else {
                    let (layer, index) = choose|layer: int, index: int|
                        0 <= layer < from.len() && 0 <= index < shorter.len() && index
                            < from[layer].tile_keys@.len()
                            && #[trigger] from[layer].tile_keys@[index] == tile_key;
                    assert(from[layer].tile_keys@[index] == tile_key);
                }
                if all_registered(backends, from, to) {
                    assert forall|index: int|
                        0 <= index < shorter.len() && #[trigger] shorter[index]
                            != TileKey::nothing() implies crate::gpu_runtime::render_laws::registered(backends, shorter[index]) by {
                        assert(to[index] == shorter[index]);
                    }
                    assert(all_registered(backends, from, shorter));
                }
            },
            Ok(_) => {
                assert(to[last] == to.last());
                if to.last() != TileKey::nothing() && crate::gpu_runtime::render_laws::registered(backends, to.last()) {
                    match crate::gpu_runtime::render_passes::drawn_sources(backends, from, last) {
                        Err(error) => {
                            let layer = choose|layer: int|
                                0 <= layer < from.len() && last < (
                                #[trigger] from[layer]).tile_keys@.len() && !crate::gpu_runtime::render_laws::registered(
                                    backends,
                                    from[layer].tile_keys@[last],
                                ) && error == (RenderExecutorError::MissingTileBackend {
                                    tile_key: from[layer].tile_keys@[last],
                                });
                            assert(from[layer].tile_keys@[last]
                                == error->MissingTileBackend_tile_key);
                            lemma_nothing_drawn_from(backends, from, last);
                        },
                        Ok(_) => {
                            assert forall|layer: int|
                                0 <= layer < from.len() && last
                                    < from[layer].tile_keys@.len()
                                    && from[layer].tile_keys@[last]
                                    != TileKey::nothing() implies crate::gpu_runtime::render_laws::registered(
                                backends,
                                #[trigger] from[layer].tile_keys@[last],
                            ) by {
                                if !crate::gpu_runtime::render_laws::registered(backends, from[layer].tile_keys@[last]) {
                                    lemma_unregistered_source(backends, from, last, layer);
                                }
                            }
                        },
                    }
                }
                if to.last() != TileKey::nothing() && !crate::gpu_runtime::render_laws::registered(backends, to.last()) {
                    assert(to.contains(to.last()));
                }
                if crate::gpu_runtime::render_passes::prepared(backends, from, to) is Ok {
                    assert forall|index: int|
                        0 <= index < to.len() && #[trigger] to[index]
                            != TileKey::nothing() implies crate::gpu_runtime::render_laws::registered(backends, to[index]) by {
                        if index < last {
                            assert(shorter[index] == to[index]);
                        }
                    }
                    assert forall|layer: int, index: int|
                        0 <= layer < from.len() && 0 <= index < to.len() && index
                            < from[layer].tile_keys@.len() && to[index] != TileKey::nothing()
                            && from[layer].tile_keys@[index] != TileKey::nothing() implies crate::gpu_runtime::render_laws::registered(
                        backends,
                        #[trigger] from[layer].tile_keys@[index],
                    ) by {
                        if index < last {
                            assert(shorter[index] == to[index]);
                        }
                    }
                }
            },
        }
    }
}

/// Where the sources of a target cannot all be bound, a layer has a tile for it
/// whose backend is not registered.
proof fn lemma_nothing_drawn_from(
    backends: Seq<BackendBinding>,
    from: Seq<RenderSource>,
    index: int,
)
    requires
        index >= 0,
        crate::gpu_runtime::render_passes::drawn_sources(backends, from, index) is Err,
    ensures
        exists|layer: int|
            0 <= layer < from.len() && index < from[layer].tile_keys@.len()
                && from[layer].tile_keys@[index] != TileKey::nothing() && !crate::gpu_runtime::render_laws::registered(
                backends,
                #[trigger] from[layer].tile_keys@[index],
            ),
    decreases from.len(),
{
    let shorter = from.drop_last();
    if from.len() > 0 {
        if crate::gpu_runtime::render_passes::drawn_sources(backends, shorter, index) is Err {
            lemma_nothing_drawn_from(backends, shorter, index);
            let layer = choose|layer: int|
                0 <= layer < shorter.len() && index < shorter[layer].tile_keys@.len()
                    && shorter[layer].tile_keys@[index] != TileKey::nothing() && !crate::gpu_runtime::render_laws::registered(
                    backends,
                    #[trigger] shorter[layer].tile_keys@[index],
                );
            assert(from[layer] == shorter[layer]);
            assert(!crate::gpu_runtime::render_laws::registered(backends, from[layer].tile_keys@[index]));
        } else {
            assert(from[from.len() - 1] == from.last());
            assert(!crate::gpu_runtime::render_laws::registered(backends, from[from.len() - 1].tile_keys@[index]));
        }
    }
}

/// What is cleared of the targets of a command that cannot be carried out are some
/// of its first targets, in order: all those before the one at fault, and no target
/// after it.
pub proof fn lemma_first_targets_are_cleared(
    backends: Seq<BackendBinding>,
    from: Seq<RenderSource>,
    to: Seq<TileKey>,
)
    requires
        crate::gpu_runtime::render_laws::all_addressable(backends),
    ensures
        ({
            let cleared = crate::gpu_runtime::render_passes::cleared_targets(backends, from, to);
            &&& cleared.len() <= crate::gpu_runtime::render_laws::named_keys(to).len()
            &&& forall|i: int|
                0 <= i < cleared.len() ==> crate::gpu_runtime::render_laws::lies_at(
                    backends,
                    crate::gpu_runtime::render_laws::named_keys(to)[i],
                    #[trigger] cleared[i],
                )
            &&& crate::gpu_runtime::render_passes::prepared(backends, from, to) is Ok
                ==> cleared.len() == crate::gpu_runtime::render_laws::named_keys(to).len()
            &&& forall|count: int|
                0 <= count <= to.len() && crate::gpu_runtime::render_passes::prepared(
                    backends,
                    from,
                    #[trigger] to.take(count),
                ) is Ok ==> crate::gpu_runtime::render_laws::named_keys(to.take(count)).len() <= cleared.len()
        }),
    decreases to.len(),
{
    if to.len() > 0 {
        let shorter = to.drop_last();
        let fewer = crate::gpu_runtime::render_passes::cleared_targets(backends, from, shorter);
        let cleared = crate::gpu_runtime::render_passes::cleared_targets(backends, from, to);
        lemma_first_targets_are_cleared(backends, from, shorter);
        crate::gpu_runtime::render_laws::lemma_tiles_are_found_where_they_lie(backends, to.last());
        assert forall|i: int| 0 <= i < cleared.len() implies crate::gpu_runtime::render_laws::lies_at(
            backends,
            crate::gpu_runtime::render_laws::named_keys(to)[i],
            #[trigger] cleared[i],
        ) by {
            if i < fewer.len() {
                assert(cleared[i] == fewer[i]);
                assert(crate::gpu_runtime::render_laws::named_keys(to)[i] == crate::gpu_runtime::render_laws::named_keys(shorter)[i]);
            }
        }
        assert forall|count: int|
            0 <= count <= to.len() && crate::gpu_runtime::render_passes::prepared(
                backends,
                from,
                #[trigger] to.take(count),
            ) is Ok implies crate::gpu_runtime::render_laws::named_keys(to.take(count)).len() <= cleared.len() by {
            if count < to.len() {
                assert(to.take(count) =~= shorter.take(count));
            } else {
                assert(to.take(count) =~= to);
            }
        }
    }
}

/// The command asks for something: it has targets and layers.
pub open spec fn asks_for_something(cmd: RenderCmd) -> bool {
    cmd.to@.len() > 0 && cmd.from@.len() > 0
}

/// A command without targets or layers does nothing, and any other draws its layers
/// into its targets. One that cannot be carried out draws nothing, and clears its
/// first targets only.
pub proof fn lemma_command_is_carried_out(backends: Seq<BackendBinding>, cmd: RenderCmd)
    requires
        crate::gpu_runtime::render_laws::all_addressable(backends),
    ensures
        ({
            let plan = crate::gpu_runtime::render_passes::carried_out(backends, cmd);
            let encoded = crate::gpu_runtime::render_passes::encoded(backends, cmd);
            &&& encoded is Ok <==> (asks_for_something(cmd) ==> all_registered(
                backends,
                cmd.from@,
                cmd.to@,
            ))
            &&& encoded is Ok ==> plan == encoded->Ok_0
            &&& !asks_for_something(cmd) ==> plan.clears.len() == 0 && plan.passes.len() == 0
            &&& asks_for_something(cmd) && encoded is Ok ==> {
                &&& plan.clears.len() == crate::gpu_runtime::render_laws::named_keys(cmd.to@).len()
                &&& crate::gpu_runtime::render_laws::target_total(plan.passes) == crate::gpu_runtime::render_laws::drawn_count(cmd.from@, cmd.to@)
                &&& forall|tile: TileModel| #[trigger]
                    crate::gpu_runtime::render_laws::has_target(plan.passes, tile) ==> crate::gpu_runtime::render_laws::is_asked_for(
                        backends,
                        cmd.from@,
                        cmd.to@,
                        tile,
                    )
                &&& forall|index: int|
                    0 <= index < cmd.to@.len() && cmd.to@[index] != TileKey::nothing() && (
                    #[trigger] crate::gpu_runtime::render_laws::suppliers(cmd.from@, index)).len() > 0 ==> crate::gpu_runtime::render_laws::is_drawn(
                        backends,
                        cmd.from@,
                        cmd.to@,
                        plan.passes,
                        index,
                    )
            }
            &&& encoded is Err ==> plan.passes.len() == 0
            &&& plan.clears.len() <= crate::gpu_runtime::render_laws::named_keys(cmd.to@).len()
            &&& forall|i: int|
                0 <= i < plan.clears.len() ==> crate::gpu_runtime::render_laws::lies_at(
                    backends,
                    crate::gpu_runtime::render_laws::named_keys(cmd.to@)[i],
                    #[trigger] plan.clears[i],
                )
        }),
{
    lemma_render_command_needs_its_backends(backends, cmd.from@, cmd.to@);
    lemma_first_targets_are_cleared(backends, cmd.from@, cmd.to@);
    if crate::gpu_runtime::render_passes::prepared(backends, cmd.from@, cmd.to@) is Ok {
        crate::gpu_runtime::render_laws::lemma_render_command_draws_its_layers(backends, cmd.from@, cmd.to@);
    }
}

/// Commands are carried out one after the other, each as it would be alone; the
/// first that fails is carried out as far as it goes, and none after it.
pub proof fn lemma_commands_are_carried_out_in_order(
    backends: Seq<BackendBinding>,
    cmds: Seq<RenderCmd>,
)
    ensures
        ({
            let plans = crate::gpu_runtime::render_passes::all_carried_out(backends, cmds);
            &&& plans.len() <= cmds.len()
            &&& forall|k: int|
                0 <= k < plans.len() ==> #[trigger] plans[k]
                    == crate::gpu_runtime::render_passes::carried_out(backends, cmds[k])
            &&& match crate::gpu_runtime::render_passes::all_encoded(backends, cmds) {
                Ok(encoded) => {
                    &&& plans.len() == cmds.len()
                    &&& encoded == plans
                    &&& forall|k: int|
                        0 <= k < cmds.len() ==> crate::gpu_runtime::render_passes::encoded(
                            backends,
                            #[trigger] cmds[k],
                        ) is Ok
                },
                Err(error) => {
                    &&& 0 < plans.len()
                    &&& crate::gpu_runtime::render_passes::encoded(
                        backends,
                        cmds[plans.len() - 1],
                    ) == Err::<CmdModel, RenderExecutorError>(error)
                    &&& forall|k: int|
                        0 <= k < plans.len() - 1 ==> crate::gpu_runtime::render_passes::encoded(
                            backends,
                            #[trigger] cmds[k],
                        ) is Ok
                },
            }
        }),
    decreases cmds.len(),
{
    if cmds.len() > 0 {
        let shorter = cmds.drop_last();
        let last = cmds.len() - 1;
        lemma_commands_are_carried_out_in_order(backends, shorter);
        let fewer = crate::gpu_runtime::render_passes::all_carried_out(backends, shorter);
        let plans = crate::gpu_runtime::render_passes::all_carried_out(backends, cmds);
        assert(cmds[last] == cmds.last());
        assert forall|k: int| 0 <= k < shorter.len() implies shorter[k] == #[trigger] cmds[k] by {}
        assert forall|k: int| 0 <= k < plans.len() implies #[trigger] plans[k]
            == crate::gpu_runtime::render_passes::carried_out(backends, cmds[k]) by {
            if k < fewer.len() {
                assert(plans[k] == fewer[k]);
                assert(shorter[k] == cmds[k]);
            }
        }
        match crate::gpu_runtime::render_passes::all_encoded(backends, shorter) {
            Ok(encoded) => {
                if let Ok(all) = crate::gpu_runtime::render_passes::all_encoded(backends, cmds) {
                    assert(all =~= plans);
                }
            },
            Err(error) => {
                assert(shorter[fewer.len() - 1] == cmds[fewer.len() - 1]);
            },
        }
    }
}

/// The format in which commands are rendered is that of the first tile of the first
/// command where its backend is registered, or eight bits for each channel if there
/// is none.
pub proof fn lemma_format_is_that_of_the_first_target(
    backends: Seq<BackendBinding>,
    targets: Seq<Seq<TileKey>>,
)
    ensures
        ({
            let format = crate::gpu_runtime::render_passes::detected_format(backends, targets);
            ||| exists|k: int|
                0 <= k < targets.len() && (#[trigger] targets[k]).len() > 0 && crate::gpu_runtime::render_laws::registered(
                    backends,
                    targets[k][0],
                ) && format == backends[targets[k][0].backend as int].format && forall|i: int|
                    0 <= i < k ==> (#[trigger] targets[i]).len() == 0 || !crate::gpu_runtime::render_laws::registered(
                        backends,
                        targets[i][0],
                    )
            ||| format is Rgba8Unorm && forall|i: int|
                0 <= i < targets.len() ==> (#[trigger] targets[i]).len() == 0 || !crate::gpu_runtime::render_laws::registered(
                    backends,
                    targets[i][0],
                )
        }),
    decreases targets.len(),
{
    if targets.len() > 0 {
        let rest = targets.drop_first();
        let format = crate::gpu_runtime::render_passes::detected_format(backends, targets);
        if targets[0].len() == 0 || !crate::gpu_runtime::render_laws::registered(backends, targets[0][0]) {
            lemma_format_is_that_of_the_first_target(backends, rest);
            if exists|k: int|
                0 <= k < rest.len() && (#[trigger] rest[k]).len() > 0 && crate::gpu_runtime::render_laws::registered(
                    backends,
                    rest[k][0],
                ) && format == backends[rest[k][0].backend as int].format && forall|i: int|
                    0 <= i < k ==> (#[trigger] rest[i]).len() == 0 || !crate::gpu_runtime::render_laws::registered(
                        backends,
                        rest[i][0],
                    ) {
                let k = choose|k: int|
                    0 <= k < rest.len() && (#[trigger] rest[k]).len() > 0 && crate::gpu_runtime::render_laws::registered(
                        backends,
                        rest[k][0],
                    ) && format == backends[rest[k][0].backend as int].format && forall|i: int|
                        0 <= i < k ==> (#[trigger] rest[i]).len() == 0 || !crate::gpu_runtime::render_laws::registered(
                            backends,
                            rest[i][0],
                        );
                assert(targets[k + 1] == rest[k]);
                assert forall|i: int| 0 <= i < k + 1 implies (#[trigger] targets[i]).len() == 0
                    || !crate::gpu_runtime::render_laws::registered(backends, targets[i][0]) by {
                    if i > 0 {
                        assert(targets[i] == rest[i - 1]);
                    }
                }
            } else {
                assert forall|i: int| 0 <= i < targets.len() implies (#[trigger] targets[i]).len()
                    == 0 || !crate::gpu_runtime::render_laws::registered(backends, targets[i][0]) by {
                    if i > 0 {
                        assert(targets[i] == rest[i - 1]);
                    }
                }
            }
        }
    }
}

/// The targets of commands are those that each of them names, command by command.
pub proof fn lemma_targets_are_those_of_the_commands(
    cmds: Seq<RenderCmd>,
    meshes: Seq<MaterializeParametricCmd>,
    index: int,
)
    ensures
        crate::gpu_runtime::render_passes::render_targets(cmds).len() == cmds.len(),
        crate::gpu_runtime::render_passes::parametric_targets(meshes).len() == meshes.len(),
        0 <= index < cmds.len() ==> crate::gpu_runtime::render_passes::render_targets(cmds)[index]
            == cmds[index].to@,
        0 <= index < meshes.len() ==> crate::gpu_runtime::render_passes::parametric_targets(
            meshes,
        )[index] == meshes[index].dst_tile_keys@,
{
}

/// A command that fails at a target has cleared the ones before it, and this one too if
/// its backend is registered, but none behind it.
pub proof fn lemma_clears_end_at_the_fault(
    backends: Seq<BackendBinding>,
    cmd: RenderCmd,
    place: int,
)
    requires
        crate::gpu_runtime::render_laws::all_addressable(backends),
        asks_for_something(cmd),
        0 <= place < cmd.to@.len(),
        crate::gpu_runtime::render_passes::prepared(
            backends,
            cmd.from@,
            cmd.to@.take(place),
        ) is Ok,
        crate::gpu_runtime::render_passes::prepared(
            backends,
            cmd.from@,
            cmd.to@.take(place + 1),
        ) is Err,
    ensures
        crate::gpu_runtime::render_passes::carried_out(backends, cmd).clears.len()
            == crate::gpu_runtime::render_laws::named_keys(cmd.to@.take(place)).len()
            + if crate::gpu_runtime::render_laws::registered(backends, cmd.to@[place]) {
            1int
        } else {
            0
        },
{
    lemma_cleared_up_to_the_fault(backends, cmd.from@, cmd.to@, place);
}

proof fn lemma_cleared_up_to_the_fault(
    backends: Seq<BackendBinding>,
    from: Seq<RenderSource>,
    to: Seq<TileKey>,
    place: int,
)
    requires
        crate::gpu_runtime::render_laws::all_addressable(backends),
        0 <= place < to.len(),
        crate::gpu_runtime::render_passes::prepared(backends, from, to.take(place)) is Ok,
        crate::gpu_runtime::render_passes::prepared(backends, from, to.take(place + 1)) is Err,
    ensures
        crate::gpu_runtime::render_passes::prepared(backends, from, to) is Err,
        crate::gpu_runtime::render_passes::cleared_targets(backends, from, to).len()
            == crate::gpu_runtime::render_laws::named_keys(to.take(place)).len()
            + if crate::gpu_runtime::render_laws::registered(backends, to[place]) {
            1int
        } else {
            0
        },
    decreases to.len(),
{
    let shorter = to.drop_last();
    if place == to.len() - 1 {
        assert(to.take(place) =~= shorter);
        assert(to.take(place + 1) =~= to);
        lemma_first_targets_are_cleared(backends, from, shorter);
        crate::gpu_runtime::render_laws::lemma_tiles_are_found_where_they_lie(backends, to[place]);
    } else {
        assert(shorter.take(place) =~= to.take(place));
        assert(shorter.take(place + 1) =~= to.take(place + 1));
        lemma_cleared_up_to_the_fault(backends, from, shorter, place);
    }
}

} // verus!
