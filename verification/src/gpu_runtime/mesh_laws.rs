//! Which tiles meshes are drawn into.
use vstd::prelude::*;

use crate::gpu_runtime::atlas_runtime::BackendBinding;
use crate::gpu_runtime::commands::{CanvasVec2, MaterializeParametricCmd};
use crate::gpu_runtime::render_passes::{ParametricModel, RenderExecutorError};
use crate::tiles::TileKey;

verus! {

/// The places among some keys of those that name a tile, in order.
pub open spec fn named_places(keys: Seq<TileKey>) -> Seq<int>
    decreases keys.len(),
{
    if keys.len() == 0 {
        Seq::empty()
    } else if keys.last() == TileKey::nothing() {
        named_places(keys.drop_last())
    } else {
        named_places(keys.drop_last()).push(keys.len() - 1)
    }
}

/// A mesh is drawn into the tile of each key that names one, in order, with the
/// corner that is given for the key. This fails exactly if the backend of such a key
/// is not registered, and then the tiles before it are drawn.
pub proof fn lemma_mesh_is_drawn_into_its_tiles(
    backends: Seq<BackendBinding>,
    keys: Seq<TileKey>,
    origins: Seq<CanvasVec2>,
)
    requires
        crate::gpu_runtime::render_laws::all_addressable(backends),
        keys.len() <= origins.len(),
    ensures
        ({
            let drawn = crate::gpu_runtime::render_passes::mesh_tiles_drawn(
                backends,
                keys,
                origins,
            );
            let places = named_places(keys);
            &&& drawn.len() <= places.len()
            &&& forall|i: int|
                0 <= i < drawn.len() ==> 0 <= #[trigger] places[i] < keys.len() && crate::gpu_runtime::render_laws::lies_at(
                    backends,
                    keys[places[i]],
                    drawn[i].target,
                ) && drawn[i].tile_origin == origins[places[i]]
            &&& match crate::gpu_runtime::render_passes::mesh_tiles(backends, keys, origins) {
                Ok(tiles) => tiles == drawn && drawn.len() == places.len(),
                Err(error) => drawn.len() < places.len() && 0 <= places[drawn.len() as int]
                    < keys.len() && !crate::gpu_runtime::render_laws::registered(backends, keys[places[drawn.len() as int]])
                    && error == (RenderExecutorError::MissingTileBackend {
                    tile_key: keys[places[drawn.len() as int]],
                }),
            }
        }),
    decreases keys.len(),
{
    if keys.len() > 0 {
        let shorter = keys.drop_last();
        lemma_mesh_is_drawn_into_its_tiles(backends, shorter, origins);
        crate::gpu_runtime::render_laws::lemma_tiles_are_found_where_they_lie(backends, keys.last());
        let fewer = crate::gpu_runtime::render_passes::mesh_tiles_drawn(
            backends,
            shorter,
            origins,
        );
        let drawn = crate::gpu_runtime::render_passes::mesh_tiles_drawn(backends, keys, origins);
        let places = named_places(keys);
        assert forall|i: int| 0 <= i < named_places(shorter).len() implies #[trigger] places[i]
            == named_places(shorter)[i] by {}
        assert forall|i: int| 0 <= i < drawn.len() implies 0 <= #[trigger] places[i] < keys.len()
            && crate::gpu_runtime::render_laws::lies_at(backends, keys[places[i]], drawn[i].target) && drawn[i].tile_origin
            == origins[places[i]] by {
            if i < fewer.len() {
                assert(drawn[i] == fewer[i]);
                assert(places[i] == named_places(shorter)[i]);
            }
        }
    }
}

/// A mesh with vertices and indices is drawn into as many of its tiles as have a
/// key, a corner and an index, with all of its indices if their number fits; one
/// without is not drawn.
pub proof fn lemma_mesh_is_drawn_whole(
    backends: Seq<BackendBinding>,
    cmd: MaterializeParametricCmd,
)
    requires
        crate::gpu_runtime::render_laws::all_addressable(backends),
    ensures
        ({
            let plan = crate::gpu_runtime::render_passes::mesh_carried_out(backends, cmd);
            let count = vstd::math::min(
                cmd.dst_tile_keys@.len() as int,
                vstd::math::min(
                    cmd.tile_origins@.len() as int,
                    cmd.tile_indices@.len() as int,
                ),
            );
            let keys = cmd.dst_tile_keys@.take(count);
            let places = named_places(keys);
            if cmd.mesh.vertices@.len() == 0 || cmd.mesh.indices@.len() == 0 {
                &&& plan.tiles.len() == 0
                &&& plan.index_count == 0
                &&& crate::gpu_runtime::render_passes::materialized(backends, cmd) is Ok
            } else {
                &&& cmd.mesh.indices@.len() <= u32::MAX ==> plan.index_count
                    == cmd.mesh.indices@.len()
                &&& cmd.mesh.indices@.len() > u32::MAX ==> plan.index_count == 0
                &&& plan.tiles.len() <= places.len()
                &&& forall|i: int|
                    0 <= i < plan.tiles.len() ==> crate::gpu_runtime::render_laws::lies_at(
                        backends,
                        cmd.dst_tile_keys@[#[trigger] places[i]],
                        plan.tiles[i].target,
                    ) && plan.tiles[i].tile_origin == cmd.tile_origins@[places[i]]
                &&& match crate::gpu_runtime::render_passes::materialized(backends, cmd) {
                    Ok(done) => done == plan && plan.tiles.len() == places.len(),
                    Err(error) => plan.tiles.len() < places.len() && !crate::gpu_runtime::render_laws::registered(
                        backends,
                        keys[places[plan.tiles.len() as int]],
                    ) && error == (RenderExecutorError::MissingTileBackend {
                        tile_key: keys[places[plan.tiles.len() as int]],
                    }),
                }
            }
        }),
{
    let count = crate::gpu_runtime::render_passes::mesh_tile_count(cmd);
    let keys = cmd.dst_tile_keys@.take(count);
    assert(count == vstd::math::min(
        cmd.dst_tile_keys@.len() as int,
        vstd::math::min(cmd.tile_origins@.len() as int, cmd.tile_indices@.len() as int),
    ));
    lemma_mesh_is_drawn_into_its_tiles(backends, keys, cmd.tile_origins@);
}

/// Meshes are drawn one after the other, each as it would be alone; the first that
/// fails is drawn as far as it goes, and none after it.
pub proof fn lemma_meshes_are_drawn_in_order(
    backends: Seq<BackendBinding>,
    cmds: Seq<MaterializeParametricCmd>,
)
    ensures
        ({
            let plans = crate::gpu_runtime::render_passes::all_meshes_carried_out(backends, cmds);
            &&& plans.len() <= cmds.len()
            &&& forall|k: int|
                0 <= k < plans.len() ==> #[trigger] plans[k]
                    == crate::gpu_runtime::render_passes::mesh_carried_out(backends, cmds[k])
            &&& match crate::gpu_runtime::render_passes::all_materialized(backends, cmds) {
                Ok(done) => done == plans && plans.len() == cmds.len(),
                Err(error) => {
                    &&& 0 < plans.len()
                    &&& crate::gpu_runtime::render_passes::materialized(
                        backends,
                        cmds[plans.len() - 1],
                    ) == Err::<ParametricModel, RenderExecutorError>(error)
                    &&& forall|k: int|
                        0 <= k < plans.len() - 1
                            ==> crate::gpu_runtime::render_passes::materialized(
                            backends,
                            #[trigger] cmds[k],
                        ) is Ok
                },
            }
            &&& crate::gpu_runtime::render_passes::all_materialized(backends, cmds) is Ok
                ==> forall|k: int|
                0 <= k < cmds.len() ==> crate::gpu_runtime::render_passes::materialized(
                    backends,
                    #[trigger] cmds[k],
                ) is Ok
        }),
    decreases cmds.len(),
{
    if cmds.len() > 0 {
        let shorter = cmds.drop_last();
        let last = cmds.len() - 1;
        lemma_meshes_are_drawn_in_order(backends, shorter);
        let fewer = crate::gpu_runtime::render_passes::all_meshes_carried_out(backends, shorter);
        let plans = crate::gpu_runtime::render_passes::all_meshes_carried_out(backends, cmds);
        assert(cmds[last] == cmds.last());
        assert forall|k: int| 0 <= k < shorter.len() implies shorter[k] == #[trigger] cmds[k] by {}
        assert forall|k: int| 0 <= k < plans.len() implies #[trigger] plans[k]
            == crate::gpu_runtime::render_passes::mesh_carried_out(backends, cmds[k]) by {
            if k < fewer.len() {
                assert(plans[k] == fewer[k]);
                assert(shorter[k] == cmds[k]);
            }
        }
        match crate::gpu_runtime::render_passes::all_materialized(backends, shorter) {
            Ok(done) => {
                if let Ok(all) = crate::gpu_runtime::render_passes::all_materialized(
                    backends,
                    cmds,
                ) {
                    assert(all =~= plans);
                }
            },
            Err(error) => {
                assert(shorter[fewer.len() - 1] == cmds[fewer.len() - 1]);
            },
        }
    }
}

} // verus!
