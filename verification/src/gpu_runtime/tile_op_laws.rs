//! What is done to single tiles, in terms of where they lie.
use vstd::prelude::*;

use crate::gpu_runtime::atlas_runtime::{BackendBinding, TextureFormat};
use crate::gpu_runtime::commands::{CompositeOp, CopyOp, WriteOp};
use crate::gpu_runtime::render_executor::PreparedWriteCall;
use crate::gpu_runtime::render_passes::RenderExecutorError;
use crate::tiles::TileKey;

verus! {

/// The call does what the write asks for: it writes the source's tile into the
/// square of the target, with the opacity, the tint and the earlier state that are
/// asked for, and erases if that is asked for.
pub open spec fn writes(
    backends: Seq<BackendBinding>,
    call: PreparedWriteCall,
    op: WriteOp,
) -> bool {
    &&& crate::gpu_runtime::render_laws::lies_at(
        backends,
        op.dst_tile_key,
        crate::gpu_runtime::render_laws::at_corner(
            call.pass_key.backend_id,
            call.pass_key.format,
            call.pass_key.layer,
            call.scissor_x,
            call.scissor_y,
        ),
    )
    &&& crate::gpu_runtime::render_laws::reads(
        backends,
        call.binding,
        op.src_tile_key,
        op.opacity,
        op.rgb,
        op.origin_tile_key,
    )
    &&& op.blend_mode is Normal ==> call.pipeline is Normal
    &&& op.blend_mode is Erase ==> call.pipeline is WriteErase
}

/// A tile is written exactly if the backends of source and target are registered,
/// and then as it is asked for.
pub proof fn lemma_tiles_are_written_as_asked(backends: Seq<BackendBinding>, op: WriteOp)
    requires
        crate::gpu_runtime::render_laws::all_addressable(backends),
    ensures
        match crate::gpu_runtime::render_executor::write_call(backends, op) {
            Ok(call) => writes(backends, call, op),
            Err(error) => if crate::gpu_runtime::render_laws::registered(backends, op.src_tile_key) {
                !crate::gpu_runtime::render_laws::registered(backends, op.dst_tile_key) && error == (
                RenderExecutorError::MissingTileBackend { tile_key: op.dst_tile_key })
            } else {
                error == (RenderExecutorError::MissingTileBackend { tile_key: op.src_tile_key })
            },
        },
{
    crate::gpu_runtime::render_laws::lemma_bound_tiles_are_read_as_asked(
        backends,
        op.src_tile_key,
        op.opacity,
        op.rgb,
        op.origin_tile_key,
    );
    crate::gpu_runtime::render_laws::lemma_tiles_are_found_where_they_lie(backends, op.dst_tile_key);
    if let Ok(place) = crate::gpu_runtime::render_passes::found(backends, op.dst_tile_key) {
        assert(crate::gpu_runtime::render_laws::at_corner(
            place.backend_id,
            place.format,
            place.address.layer,
            place.address.texel_offset.0,
            place.address.texel_offset.1,
        ) == place);
    }
}

/// The write with this number is the first that cannot be done: the backend of its
/// source or of its target is not registered.
pub open spec fn is_first_fault(backends: Seq<BackendBinding>, ops: Seq<WriteOp>, k: int) -> bool {
    &&& 0 <= k < ops.len()
    &&& !(crate::gpu_runtime::render_laws::registered(backends, ops[k].src_tile_key) && crate::gpu_runtime::render_laws::registered(backends, ops[k].dst_tile_key))
    &&& forall|i: int|
        0 <= i < k ==> crate::gpu_runtime::render_laws::registered(backends, (#[trigger] ops[i]).src_tile_key) && crate::gpu_runtime::render_laws::registered(
            backends,
            ops[i].dst_tile_key,
        )
}

/// The format of the last target, or the one before if there is none.
pub open spec fn last_format(
    backends: Seq<BackendBinding>,
    format: Option<TextureFormat>,
    ops: Seq<WriteOp>,
) -> Option<TextureFormat> {
    if ops.len() == 0 {
        format
    } else {
        Some(backends[ops.last().dst_tile_key.backend as int].format)
    }
}

/// Several tiles are written one after the other, each as it is asked for, if all
/// backends are registered; the pipelines are then in the format of the last target.
/// Otherwise the first write that cannot be done gives the error, and the pipelines
/// are in the format of the target before it.
pub proof fn lemma_writes_are_done_in_order(
    backends: Seq<BackendBinding>,
    format: Option<TextureFormat>,
    ops: Seq<WriteOp>,
)
    requires
        crate::gpu_runtime::render_laws::all_addressable(backends),
    ensures
        ({
            let (after, result) = crate::gpu_runtime::render_executor::write_calls(
                backends,
                format,
                ops,
            );
            match result {
                Ok(calls) => {
                    &&& calls.len() == ops.len()
                    &&& forall|k: int|
                        0 <= k < ops.len() ==> writes(backends, #[trigger] calls[k], ops[k])
                    &&& after == last_format(backends, format, ops)
                },
                Err(error) => exists|k: int| #[trigger]
                    is_first_fault(backends, ops, k) && (error == (
                    RenderExecutorError::MissingTileBackend { tile_key: ops[k].src_tile_key })
                        || error == (RenderExecutorError::MissingTileBackend {
                        tile_key: ops[k].dst_tile_key,
                    })) && after == last_format(backends, format, ops.take(k)),
            }
        }),
    decreases ops.len(),
{
    if ops.len() > 0 {
        let shorter = ops.drop_last();
        let last = ops.len() - 1;
        lemma_writes_are_done_in_order(backends, format, shorter);
        lemma_tiles_are_written_as_asked(backends, ops.last());
        let (before, earlier) = crate::gpu_runtime::render_executor::write_calls(
            backends,
            format,
            shorter,
        );
        match earlier {
            Ok(calls) => {
                match crate::gpu_runtime::render_executor::write_calls(backends, format, ops).1 {
                    Ok(all) => {
                        assert forall|k: int| 0 <= k < ops.len() implies writes(
                            backends,
                            #[trigger] all[k],
                            ops[k],
                        ) by {
                            if k < last {
                                assert(all[k] == calls[k]);
                                assert(shorter[k] == ops[k]);
                            }
                        }
                    },
                    Err(error) => {
                        assert forall|i: int| 0 <= i < last implies crate::gpu_runtime::render_laws::registered(
                            backends,
                            (#[trigger] ops[i]).src_tile_key,
                        ) && crate::gpu_runtime::render_laws::registered(backends, ops[i].dst_tile_key) by {
                            assert(writes(backends, calls[i], shorter[i]));
                        }
                        assert(ops.take(last) =~= shorter);
                        assert(is_first_fault(backends, ops, last));
                    },
                }
            },
            Err(error) => {
                let k = choose|k: int| #[trigger]
                    is_first_fault(backends, shorter, k) && (error == (
                    RenderExecutorError::MissingTileBackend { tile_key: shorter[k].src_tile_key })
                        || error == (RenderExecutorError::MissingTileBackend {
                        tile_key: shorter[k].dst_tile_key,
                    })) && before == last_format(backends, format, shorter.take(k));
                assert(ops[k] == shorter[k]);
                assert(ops.take(k) =~= shorter.take(k));
                assert forall|i: int| 0 <= i < k implies crate::gpu_runtime::render_laws::registered(
                    backends,
                    (#[trigger] ops[i]).src_tile_key,
                ) && crate::gpu_runtime::render_laws::registered(backends, ops[i].dst_tile_key) by {
                    assert(ops[i] == shorter[i]);
                }
                assert(is_first_fault(backends, ops, k));
            },
        }
    }
}

/// The first of some tiles whose backend is not registered is named by the error.
pub open spec fn names_first_missing(
    backends: Seq<BackendBinding>,
    keys: Seq<TileKey>,
    error: RenderExecutorError,
) -> bool {
    exists|k: int|
        0 <= k < keys.len() && !crate::gpu_runtime::render_laws::registered(backends, #[trigger] keys[k]) && error == (
        RenderExecutorError::MissingTileBackend { tile_key: keys[k] }) && forall|i: int|
            0 <= i < k ==> crate::gpu_runtime::render_laws::registered(backends, #[trigger] keys[i])
}

/// A tile is copied from where the source lies to where the target lies; this fails
/// exactly if a backend of the two is not registered.
pub proof fn lemma_tiles_are_copied_as_asked(backends: Seq<BackendBinding>, op: CopyOp)
    requires
        crate::gpu_runtime::render_laws::all_addressable(backends),
    ensures
        match crate::gpu_runtime::render_executor::copied(backends, op) {
            Ok(copy) => crate::gpu_runtime::render_laws::lies_at(backends, op.src_tile_key, copy.source) && crate::gpu_runtime::render_laws::lies_at(
                backends,
                op.dst_tile_key,
                copy.target,
            ),
            Err(error) => names_first_missing(
                backends,
                seq![op.src_tile_key, op.dst_tile_key],
                error,
            ),
        },
{
    crate::gpu_runtime::render_laws::lemma_tiles_are_found_where_they_lie(backends, op.src_tile_key);
    crate::gpu_runtime::render_laws::lemma_tiles_are_found_where_they_lie(backends, op.dst_tile_key);
    let keys = seq![op.src_tile_key, op.dst_tile_key];
    assert(keys[0] == op.src_tile_key && keys[1] == op.dst_tile_key);
}

/// A tile is put over another one into a third: the base, the overlay and the target
/// are where their tiles lie, and the shader is told the corners of the first two and
/// the opacity. This fails exactly if a backend of the three is not registered.
pub proof fn lemma_tiles_are_composed_as_asked(backends: Seq<BackendBinding>, op: CompositeOp)
    requires
        crate::gpu_runtime::render_laws::all_addressable(backends),
    ensures
        match crate::gpu_runtime::render_executor::composite_call(backends, op) {
            Ok(call) => {
                &&& crate::gpu_runtime::render_laws::lies_at(backends, op.base_tile_key, call.base)
                &&& crate::gpu_runtime::render_laws::lies_at(backends, op.overlay_tile_key, call.overlay)
                &&& crate::gpu_runtime::render_laws::lies_at(backends, op.dst_tile_key, call.target)
                &&& (call.params.base_x, call.params.base_y) == call.base.address.texel_offset
                &&& (call.params.overlay_x, call.params.overlay_y)
                    == call.overlay.address.texel_offset
                &&& call.params.opacity == op.opacity
                &&& call.params.pad0.0 == 0
                &&& call.params.pad1.0 == 0
                &&& call.pipeline is CompositeNormal
            },
            Err(error) => names_first_missing(
                backends,
                seq![op.base_tile_key, op.overlay_tile_key, op.dst_tile_key],
                error,
            ),
        },
{
    crate::gpu_runtime::render_laws::lemma_tiles_are_found_where_they_lie(backends, op.base_tile_key);
    crate::gpu_runtime::render_laws::lemma_tiles_are_found_where_they_lie(backends, op.overlay_tile_key);
    crate::gpu_runtime::render_laws::lemma_tiles_are_found_where_they_lie(backends, op.dst_tile_key);
    let keys = seq![op.base_tile_key, op.overlay_tile_key, op.dst_tile_key];
    assert(keys[0] == op.base_tile_key && keys[1] == op.overlay_tile_key && keys[2]
        == op.dst_tile_key);
}

} // verus!
