//! How batches of commands on tiles are carried out, and what they need first.
use vstd::prelude::*;

use crate::gpu_runtime::atlas_runtime::TextureFormat;
use crate::renderer::group_tiles::{FreshTile, GroupTilesModel};
use crate::renderer::resolver::PlacedTile;
use crate::renderer::tile_renderer::{
    BatchStep, BrushShaderSpec, BrushShaderStage, FormatRequest, RenderCommand, TileRendererError,
};
use crate::tiles::TileKey;

verus! {

/// Commands that draw with a brush are turned down without brushes, and one that shows a
/// tile without a place to show it. No other command is.
pub proof fn lemma_commands_are_turned_down(
    command: RenderCommand,
    draws_with_brushes: bool,
    has_present_target: bool,
)
    ensures
        ({
            let fault = crate::renderer::tile_renderer::command_fault(
                command,
                draws_with_brushes,
                has_present_target,
            );
            match command {
                RenderCommand::CopyTile(_) | RenderCommand::CompositeTile(_) => fault is None,
                RenderCommand::ApplyDab(_) | RenderCommand::MergeTile(_) => {
                    &&& fault is None <==> draws_with_brushes
                    &&& fault is Some ==> fault->0 is UnsupportedCommand
                },
                RenderCommand::PresentTile(_) => {
                    &&& fault is None <==> has_present_target
                    &&& fault is Some ==> fault->0 is MissingPresentTarget
                },
            }
        }),
        command is ApplyDab && !draws_with_brushes ==> {
            &&& crate::renderer::tile_renderer::command_fault(
                command,
                draws_with_brushes,
                has_present_target,
            ) == Some(TileRendererError::UnsupportedCommand("ApplyDab"))
        },
        command is MergeTile && !draws_with_brushes ==> {
            &&& crate::renderer::tile_renderer::command_fault(
                command,
                draws_with_brushes,
                has_present_target,
            ) == Some(TileRendererError::UnsupportedCommand("MergeTile"))
        },
{
}

/// The step is the one at this place of a batch: first each texture is made ready, then
/// what was cleared is cleared, then the commands follow in order, and last of all comes
/// the submission.
pub open spec fn is_step_at(step: BatchStep, place: int, backends: int, encoded: int) -> bool {
    match step {
        BatchStep::EnsureBackend { backend_index } => place < backends && backend_index as int
            == place,
        BatchStep::ApplyClearBatches => place == backends,
        BatchStep::EncodeCommand { command_index } => backends < place <= backends + encoded
            && command_index as int == place - backends - 1,
        BatchStep::Submit => place == backends + encoded + 1,
    }
}

/// The number of commands that are encoded is that of the commands before the first that
/// is turned down, and the steps of the batch are in order. What was encoded is submitted
/// only if it is all there is.
pub proof fn lemma_batch_is_carried_out_in_order(
    backend_count: usize,
    commands: Seq<RenderCommand>,
    draws_with_brushes: bool,
    has_present_target: bool,
)
    requires
        commands.len() <= usize::MAX,
    ensures
        ({
            let encoded = crate::renderer::tile_renderer::accepted(
                commands,
                draws_with_brushes,
                has_present_target,
            );
            let steps = crate::renderer::tile_renderer::batch_steps(
                backend_count as nat,
                commands,
                draws_with_brushes,
                has_present_target,
            );
            &&& 0 <= encoded <= commands.len()
            &&& forall|i: int|
                0 <= i < encoded ==> crate::renderer::tile_renderer::command_fault(
                    #[trigger] commands[i],
                    draws_with_brushes,
                    has_present_target,
                ) is None
            &&& encoded < commands.len() ==> crate::renderer::tile_renderer::command_fault(
                commands[encoded as int],
                draws_with_brushes,
                has_present_target,
            ) is Some
            &&& steps.len() == backend_count + 1 + encoded + if encoded == commands.len()
                && encoded > 0 {
                1int
            } else {
                0
            }
            &&& forall|place: int|
                0 <= place < steps.len() ==> #[trigger] is_step_at(
                    steps[place],
                    place,
                    backend_count as int,
                    encoded as int,
                )
        }),
{
    crate::renderer::tile_renderer::lemma_accepted_commands(
        commands,
        draws_with_brushes,
        has_present_target,
    );
}

/// The command draws with this brush on this tile.
pub open spec fn draws_with(command: RenderCommand, brush_id: u64, tile_key: TileKey) -> bool {
    match command {
        RenderCommand::ApplyDab(dab) => dab.brush_id == brush_id && dab.destination_tile_key
            == tile_key,
        RenderCommand::MergeTile(merge) => merge.brush_id == brush_id
            && merge.intermediate_tile_key == tile_key,
        _ => false,
    }
}

/// The command draws with a brush.
pub open spec fn draws(command: RenderCommand) -> bool {
    command is ApplyDab || command is MergeTile
}

/// The tile on which a command draws.
pub open spec fn drawn_tile(command: RenderCommand) -> TileKey {
    match command {
        RenderCommand::ApplyDab(dab) => dab.destination_tile_key,
        RenderCommand::MergeTile(merge) => merge.intermediate_tile_key,
        _ => arbitrary(),
    }
}

/// The brush with which a command draws.
pub open spec fn drawn_brush(command: RenderCommand) -> u64 {
    match command {
        RenderCommand::ApplyDab(dab) => dab.brush_id,
        RenderCommand::MergeTile(merge) => merge.brush_id,
        _ => arbitrary(),
    }
}

/// A command that draws with a brush tells which brush that is, and on which tile; no
/// other command does.
pub proof fn lemma_brush_of_a_command(command: RenderCommand)
    ensures
        match crate::renderer::tile_renderer::brush_use(command) {
            None => !draws(command),
            Some(used) => draws_with(command, used.0, used.1),
        },
{
}

/// The first place of a backend is one at which it is, and before which it is not; there
/// is none exactly if it is nowhere.
pub proof fn lemma_backend_is_found(backend_ids: Seq<Option<u8>>, backend_id: u8)
    ensures
        match crate::renderer::tile_renderer::first_backend(backend_ids, backend_id) {
            Some(place) => 0 <= place < backend_ids.len() && backend_ids[place] == Some(backend_id)
                && forall|earlier: int|
                0 <= earlier < place ==> #[trigger] backend_ids[earlier] != Some(backend_id),
            None => !backend_ids.contains(Some(backend_id)),
        },
    decreases backend_ids.len(),
{
    if backend_ids.len() > 0 {
        let shorter = backend_ids.drop_last();
        lemma_backend_is_found(shorter, backend_id);
        assert forall|earlier: int| 0 <= earlier < shorter.len() implies shorter[earlier]
            == #[trigger] backend_ids[earlier] by {}
        if crate::renderer::tile_renderer::first_backend(shorter, backend_id) is None {
            assert forall|earlier: int|
                0 <= earlier < shorter.len() implies #[trigger] backend_ids[earlier] != Some(
                backend_id,
            ) by {
                assert(shorter[earlier] == backend_ids[earlier]);
                assert(shorter.contains(shorter[earlier]));
            }
        }
    }
}

/// The request is what the command needs: the first texture of the backend of its tile,
/// in the format of the shader of its brush.
pub open spec fn is_need_of(
    request: FormatRequest,
    command: RenderCommand,
    shader: BrushShaderSpec,
    backend_ids: Seq<Option<u8>>,
) -> bool {
    let format: TextureFormat = shader.intermediate_format;
    &&& draws(command)
    &&& request.format == format
    &&& request.backend_index < backend_ids.len()
    &&& backend_ids[request.backend_index as int] == Some(drawn_tile(command).backend)
    &&& forall|earlier: int|
        0 <= earlier < request.backend_index ==> #[trigger] backend_ids[earlier] != Some(
            drawn_tile(command).backend,
        )
}

/// The command has something to be made ready for: it draws, and the backend of its tile
/// is there.
pub open spec fn needs_format(command: RenderCommand, backend_ids: Seq<Option<u8>>) -> bool {
    draws(command) && backend_ids.contains(Some(drawn_tile(command).backend))
}

/// The places of the commands that have something to be made ready for.
pub open spec fn needy(
    commands: Seq<RenderCommand>,
    backend_ids: Seq<Option<u8>>,
    count: nat,
) -> Seq<int>
    decreases count,
{
    if count == 0 {
        Seq::empty()
    } else if needs_format(commands[count - 1], backend_ids) {
        needy(commands, backend_ids, (count - 1) as nat).push(count - 1)
    } else {
        needy(commands, backend_ids, (count - 1) as nat)
    }
}

/// The place is that of the first command that draws with a brush without a shader.
pub open spec fn is_first_unshaded(
    commands: Seq<RenderCommand>,
    shader_specs: Seq<Option<BrushShaderSpec>>,
    place: int,
) -> bool {
    &&& 0 <= place < commands.len()
    &&& draws(commands[place])
    &&& shader_specs[place] is None
    &&& forall|earlier: int|
        0 <= earlier < place && draws(#[trigger] commands[earlier])
            ==> shader_specs[earlier] is Some
}

/// Every command that draws has a shader.
pub open spec fn all_shaded(
    commands: Seq<RenderCommand>,
    shader_specs: Seq<Option<BrushShaderSpec>>,
) -> bool {
    forall|place: int|
        0 <= place < commands.len() && draws(#[trigger] commands[place])
            ==> shader_specs[place] is Some
}

/// The requests are what the commands before a place need, in their order.
pub open spec fn are_needs_of(
    requests: Seq<FormatRequest>,
    commands: Seq<RenderCommand>,
    shader_specs: Seq<Option<BrushShaderSpec>>,
    backend_ids: Seq<Option<u8>>,
    count: nat,
) -> bool {
    let places = needy(commands, backend_ids, count);
    &&& requests.len() == places.len()
    &&& forall|i: int|
        0 <= i < requests.len() ==> is_need_of(
            #[trigger] requests[i],
            commands[places[i]],
            shader_specs[places[i]]->0,
            backend_ids,
        )
}

/// What a batch needs is what each of its commands needs, in their order. It ends at the
/// first command that draws with a brush without a shader, with an error that names the
/// brush.
pub proof fn lemma_batch_needs_what_its_commands_need(
    commands: Seq<RenderCommand>,
    shader_specs: Seq<Option<BrushShaderSpec>>,
    backend_ids: Seq<Option<u8>>,
)
    requires
        shader_specs.len() >= commands.len(),
        backend_ids.len() <= usize::MAX,
    ensures
        ({
            let needed = crate::renderer::tile_renderer::needed_formats(
                commands,
                shader_specs,
                backend_ids,
            );
            match needed.fault {
                None => all_shaded(commands, shader_specs) && are_needs_of(
                    needed.requests,
                    commands,
                    shader_specs,
                    backend_ids,
                    commands.len(),
                ),
                Some(fault) => exists|place: int| #[trigger]
                    is_first_unshaded(commands, shader_specs, place) && fault
                        == (TileRendererError::MissingBrushShader {
                        brush_id: drawn_brush(commands[place]),
                        stage: BrushShaderStage::ApplyDab,
                    }) && are_needs_of(
                        needed.requests,
                        commands,
                        shader_specs,
                        backend_ids,
                        place as nat,
                    ),
            }
        }),
    decreases commands.len(),
{
    if commands.len() > 0 {
        let shorter = commands.drop_last();
        let place = commands.len() - 1;
        let before = crate::renderer::tile_renderer::needed_formats(
            shorter,
            shader_specs,
            backend_ids,
        );
        let needed = crate::renderer::tile_renderer::needed_formats(
            commands,
            shader_specs,
            backend_ids,
        );
        lemma_batch_needs_what_its_commands_need(shorter, shader_specs, backend_ids);
        assert forall|i: int| 0 <= i < shorter.len() implies #[trigger] commands[i]
            == shorter[i] by {}
        match before.fault {
            Some(fault) => {
                let earlier = choose|earlier: int| #[trigger]
                    is_first_unshaded(shorter, shader_specs, earlier) && fault
                        == (TileRendererError::MissingBrushShader {
                        brush_id: drawn_brush(shorter[earlier]),
                        stage: BrushShaderStage::ApplyDab,
                    }) && are_needs_of(
                        before.requests,
                        shorter,
                        shader_specs,
                        backend_ids,
                        earlier as nat,
                    );
                lemma_needy_of_fewer(commands, backend_ids, earlier as nat, place as nat);
                assert(shorter[earlier] == commands[earlier]);
                assert(is_first_unshaded(commands, shader_specs, earlier));
            },
            None => {
                lemma_needy_of_fewer(commands, backend_ids, place as nat, place as nat);
                let command = commands[place];
                if draws(command) {
                    if shader_specs[place] is None {
                        assert forall|earlier: int|
                            0 <= earlier < place && draws(#[trigger] commands[earlier]) implies
                            shader_specs[earlier] is Some by {
                            assert(shorter[earlier] == commands[earlier]);
                        }
                        assert(is_first_unshaded(commands, shader_specs, place));
                    } else {
                        lemma_backend_is_found(backend_ids, drawn_tile(command).backend);
                        assert(all_shaded(commands, shader_specs)) by {
                            assert forall|p: int|
                                0 <= p < commands.len() && draws(#[trigger] commands[p]) implies
                                shader_specs[p] is Some by {
                                if p < shorter.len() {
                                    assert(shorter[p] == commands[p]);
                                }
                            }
                        }
                        let places = needy(commands, backend_ids, commands.len());
                        if let Some(at) = crate::renderer::tile_renderer::first_backend(
                            backend_ids,
                            drawn_tile(command).backend,
                        ) {
                            assert(backend_ids.contains(backend_ids[at]));
                            assert forall|i: int| 0 <= i < needed.requests.len() implies is_need_of(
                                #[trigger] needed.requests[i],
                                commands[places[i]],
                                shader_specs[places[i]]->0,
                                backend_ids,
                            ) by {
                                if i < before.requests.len() {
                                    assert(before.requests[i] == needed.requests[i]);
                                }
                            }
                        }
                    }
                } else {
                    assert(all_shaded(commands, shader_specs)) by {
                        assert forall|p: int|
                            0 <= p < commands.len() && draws(#[trigger] commands[p]) implies
                            shader_specs[p] is Some by {
                            if p < shorter.len() {
                                assert(shorter[p] == commands[p]);
                            }
                        }
                    }
                }
            },
        }
    }
}

/// The commands before a place are the same with or without those behind.
proof fn lemma_needy_of_fewer(
    commands: Seq<RenderCommand>,
    backend_ids: Seq<Option<u8>>,
    count: nat,
    kept: nat,
)
    requires
        count <= kept,
        commands.len() == kept + 1,
    ensures
        needy(commands.drop_last(), backend_ids, count) == needy(commands, backend_ids, count),
        forall|i: int|
            0 <= i < needy(commands, backend_ids, count).len() ==> 0 <= #[trigger] needy(
                commands,
                backend_ids,
                count,
            )[i] < count,
    decreases count,
{
    if count > 0 {
        lemma_needy_of_fewer(commands, backend_ids, (count - 1) as nat, kept);
        assert(commands.drop_last()[count - 1] == commands[count - 1]);
    }
}

/// The places of the tiles that are in use, each key only where it comes first.
pub open spec fn given_back(
    atlas: GroupTilesModel,
    tiles: Seq<PlacedTile>,
    count: nat,
) -> Seq<int>
    decreases count,
{
    if count == 0 {
        Seq::empty()
    } else {
        let key = tiles[count - 1].key;
        let earlier = given_back(atlas, tiles, (count - 1) as nat);
        if atlas.addresses.dom().contains(key) && forall|i: int|
            0 <= i < count - 1 ==> (#[trigger] tiles[i]).key != key {
            earlier.push(count - 1)
        } else {
            earlier
        }
    }
}

/// Tiles that are given back can be used again after those that could be used before, in
/// the order in which they are given back, and where they are.
pub proof fn lemma_tiles_are_given_back_in_order(atlas: GroupTilesModel, tiles: Seq<PlacedTile>)
    ensures
        ({
            let after = atlas.all_released(tiles).fresh;
            let places = given_back(atlas, tiles, tiles.len());
            let count = atlas.fresh.len();
            &&& after.len() == count + places.len()
            &&& forall|i: int| 0 <= i < count ==> #[trigger] after[i] == atlas.fresh[i]
            &&& forall|i: int|
                0 <= i < places.len() ==> after[count + i] == (FreshTile {
                    key: tiles[#[trigger] places[i]].key,
                    address: atlas.addresses[tiles[places[i]].key],
                })
        }),
    decreases tiles.len(),
{
    if tiles.len() > 0 {
        let shorter = tiles.drop_last();
        let last = tiles.last().key;
        let before = atlas.all_released(shorter);
        lemma_tiles_are_given_back_in_order(atlas, shorter);
        lemma_given_back_of_fewer(atlas, tiles, (tiles.len() - 1) as nat);
        if forall|i: int| 0 <= i < shorter.len() ==> (#[trigger] tiles[i]).key != last {
            assert forall|i: int| 0 <= i < shorter.len() implies (#[trigger] shorter[i]).key
                != last by {
                assert(shorter[i] == tiles[i]);
            }
            crate::renderer::group_tiles::lemma_release_leaves_others(atlas, shorter, last);
        } else {
            let i = choose|i: int| 0 <= i < shorter.len() && (#[trigger] tiles[i]).key == last;
            assert(shorter[i] == tiles[i]);
            crate::renderer::group_tiles::lemma_released_tile_can_be_used_again(
                atlas,
                shorter,
                i,
            );
        }
        let places = given_back(atlas, tiles, tiles.len());
        let after = atlas.all_released(tiles).fresh;
        assert forall|i: int| 0 <= i < atlas.fresh.len() implies #[trigger] after[i]
            == atlas.fresh[i] by {
            assert(before.fresh[i] == atlas.fresh[i]);
        }
        assert forall|i: int| 0 <= i < places.len() implies after[atlas.fresh.len() + i] == (
        FreshTile {
            key: tiles[#[trigger] places[i]].key,
            address: atlas.addresses[tiles[places[i]].key],
        }) by {
            let fewer = given_back(atlas, shorter, shorter.len());
            if i < fewer.len() {
                assert(fewer[i] == places[i]);
                assert(before.fresh[atlas.fresh.len() + i] == after[atlas.fresh.len() + i]);
            }
        }
    }
}

proof fn lemma_given_back_of_fewer(
    atlas: GroupTilesModel,
    tiles: Seq<PlacedTile>,
    count: nat,
)
    requires
        count < tiles.len(),
    ensures
        given_back(atlas, tiles.drop_last(), count) == given_back(atlas, tiles, count),
        forall|i: int|
            0 <= i < given_back(atlas, tiles, count).len() ==> 0 <= #[trigger] given_back(
                atlas,
                tiles,
                count,
            )[i] < count,
    decreases count,
{
    if count > 0 {
        let shorter = tiles.drop_last();
        lemma_given_back_of_fewer(atlas, tiles, (count - 1) as nat);
        assert(shorter[count - 1] == tiles[count - 1]);
        let key = tiles[count - 1].key;
        if forall|i: int| 0 <= i < count - 1 ==> (#[trigger] shorter[i]).key != key {
            assert forall|i: int| 0 <= i < count - 1 implies (#[trigger] tiles[i]).key != key by {
                assert(shorter[i] == tiles[i]);
            }
        } else {
            let i = choose|i: int| 0 <= i < count - 1 && (#[trigger] shorter[i]).key == key;
            assert(shorter[i] == tiles[i]);
        }
    }
}

/// A group takes as few tiles as cover the document, each of them 126 pixels across: one
/// fewer would leave pixels out.
pub proof fn lemma_group_covers_the_document(document_width: u32, document_height: u32)
    requires
        document_width > 0,
        document_height > 0,
    ensures
        ({
            let grid = crate::renderer::geometry::group_grid(document_width, document_height);
            &&& (grid.0 - 1) * 126 < document_width <= grid.0 * 126
            &&& (grid.1 - 1) * 126 < document_height <= grid.1 * 126
        }),
{
}

} // verus!
