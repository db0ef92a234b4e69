//! What becomes of brush commands: when they are accepted, and what a frame does of
//! them.
use vstd::prelude::*;

use crate::render_protocol::{
    BrushControlAck, BrushControlCommand, BrushProgramKey, BrushRenderCommand, BrushStrokeBegin,
    BufferTileCoordinate,
};
use crate::renderer::brush::{
    BrushBindingFault, BrushControlError, BrushExecutionFault, BrushModel, BrushProgress, BrushRenderEnqueueError,
    BrushStep, BrushWorkModel,
};
use crate::tiles::TileKey;

verus! {

/// The program that a stroke is drawn with.
pub open spec fn program_of(begin: BrushStrokeBegin) -> BrushProgramKey {
    BrushProgramKey { brush_id: begin.brush_id, program_revision: begin.program_revision }
}

/// A stroke begins exactly if its program is prepared and is the active one of its
/// brush, no stroke waits to be merged, its reference set is there, and it does not
/// go on with another program. The error says which of these fails.
pub proof fn lemma_stroke_begins_when_all_is_ready(model: BrushModel, begin: BrushStrokeBegin)
    ensures
        ({
            let key = program_of(begin);
            let stroke = begin.stroke_session_id;
            let prepared = model.prepared.dom().contains(key);
            let active = model.active_program.dom().contains(begin.brush_id)
                && model.active_program[begin.brush_id] == begin.program_revision;
            let merged = forall|id: u64| !#[trigger] model.ended.dom().contains(id);
            let reference = model.reference_sets.dom().contains(begin.reference_set_id);
            let fits = model.active.dom().contains(stroke) ==> model.active[stroke] == key;
            match model.enqueue_error(BrushRenderCommand::BeginStroke(begin)) {
                None => prepared && active && merged && reference && fits,
                Some(BrushRenderEnqueueError::ProgramNotPrepared { key: named }) => named == key
                    && !prepared,
                Some(BrushRenderEnqueueError::ProgramNotActivated { key: named }) => named == key
                    && prepared && !active,
                Some(BrushRenderEnqueueError::BeginWithPendingMerge) => prepared && active
                    && !merged,
                Some(BrushRenderEnqueueError::ReferenceSetMissing { reference_set_id }) => {
                    reference_set_id == begin.reference_set_id && prepared && active && merged
                        && !reference
                },
                Some(
                    BrushRenderEnqueueError::StrokeProgramMismatch {
                        stroke_session_id,
                        expected,
                        received,
                    },
                ) => stroke_session_id == stroke && expected == model.active[stroke] && received
                    == key && prepared && active && merged && reference && !fits,
                Some(_) => false,
            }
        }),
{
    if forall|id: u64| !#[trigger] model.ended.dom().contains(id) {
        assert(model.ended =~= Map::<u64, u64>::empty());
    } else {
        assert(model.ended != Map::<u64, u64>::empty()) by {
            let id = choose|id: u64| #[trigger] model.ended.dom().contains(id);
            assert(!Map::<u64, u64>::empty().dom().contains(id));
        }
    }
}

/// The stroke that a command other than a begin is for.
pub open spec fn stroke_of(command: BrushRenderCommand) -> u64 {
    match command {
        BrushRenderCommand::BeginStroke(begin) => begin.stroke_session_id,
        BrushRenderCommand::AllocateBufferTiles(allocate) => allocate.stroke_session_id,
        BrushRenderCommand::PushDabChunkF32(chunk) => chunk.stroke_session_id,
        BrushRenderCommand::EndStroke(end) => end.stroke_session_id,
        BrushRenderCommand::MergeBuffer(merge) => merge.stroke_session_id,
    }
}

/// Tiles, dabs and an end are accepted exactly for a stroke that is active, and a
/// merge exactly for one that has ended and into the layer that it was drawn for.
pub proof fn lemma_commands_are_accepted_within_their_stroke(
    model: BrushModel,
    command: BrushRenderCommand,
)
    requires
        !(command is BeginStroke),
    ensures
        ({
            let stroke = stroke_of(command);
            match command {
                BrushRenderCommand::MergeBuffer(merge) => match model.enqueue_error(command) {
                    None => model.ended.dom().contains(stroke) && model.ended[stroke]
                        == merge.target_layer_id,
                    Some(BrushRenderEnqueueError::MergeBeforeStrokeEnd { stroke_session_id }) => {
                        stroke_session_id == stroke && !model.ended.dom().contains(stroke)
                    },
                    Some(
                        BrushRenderEnqueueError::MergeTargetLayerMismatch {
                            stroke_session_id,
                            expected_layer_id,
                            received_layer_id,
                        },
                    ) => stroke_session_id == stroke && model.ended.dom().contains(stroke)
                        && expected_layer_id == model.ended[stroke] && received_layer_id
                        == merge.target_layer_id && expected_layer_id != received_layer_id,
                    Some(_) => false,
                },
                _ => match model.enqueue_error(command) {
                    None => model.active.dom().contains(stroke),
                    Some(BrushRenderEnqueueError::UnknownStroke { stroke_session_id }) => {
                        stroke_session_id == stroke && !model.active.dom().contains(stroke)
                    },
                    Some(_) => false,
                },
            }
        }),
{
}

/// Queueing a command puts it last, and counts its dabs. A begin makes its stroke
/// active with its program, reference set and layer; an end takes all of this away
/// and has the stroke wait to be merged into its layer; a merge ends the wait. Other
/// strokes, and what is executed, stay as they are.
pub proof fn lemma_queueing_a_command(model: BrushModel, command: BrushRenderCommand, other: u64)
    requires
        other != stroke_of(command),
    ensures
        ({
            let after = model.enqueued(command);
            let stroke = stroke_of(command);
            &&& after.commands.len() == model.commands.len() + 1
            &&& after.commands.drop_last() == model.commands
            &&& after.commands.last() == command
            &&& command matches BrushRenderCommand::PushDabChunkF32(chunk)
                ==> model.pending_dab_count + chunk.len <= u64::MAX ==> after.pending_dab_count
                == model.pending_dab_count + chunk.len
            &&& !(command is PushDabChunkF32) ==> after.pending_dab_count
                == model.pending_dab_count
            &&& match command {
                BrushRenderCommand::BeginStroke(begin) => {
                    &&& after.active.dom().contains(stroke)
                    &&& after.active[stroke] == program_of(begin)
                    &&& after.stroke_reference.dom().contains(stroke)
                    &&& after.stroke_reference[stroke] == begin.reference_set_id
                    &&& after.stroke_target.dom().contains(stroke)
                    &&& after.stroke_target[stroke] == begin.target_layer_id
                    &&& after.ended == model.ended
                },
                BrushRenderCommand::EndStroke(_) => {
                    &&& !after.active.dom().contains(stroke)
                    &&& !after.stroke_reference.dom().contains(stroke)
                    &&& !after.stroke_target.dom().contains(stroke)
                    &&& after.ended.dom().contains(stroke)
                    &&& after.ended[stroke] == model.stroke_target[stroke]
                },
                BrushRenderCommand::MergeBuffer(_) => {
                    &&& !after.ended.dom().contains(stroke)
                    &&& after.active == model.active
                    &&& after.stroke_reference == model.stroke_reference
                    &&& after.stroke_target == model.stroke_target
                },
                _ => {
                    &&& after.active == model.active
                    &&& after.stroke_reference == model.stroke_reference
                    &&& after.stroke_target == model.stroke_target
                    &&& after.ended == model.ended
                },
            }
            &&& after.active.dom().contains(other) == model.active.dom().contains(other)
            &&& after.active[other] == model.active[other]
            &&& after.stroke_reference.dom().contains(other)
                == model.stroke_reference.dom().contains(other)
            &&& after.stroke_reference[other] == model.stroke_reference[other]
            &&& after.stroke_target.dom().contains(other) == model.stroke_target.dom().contains(
                other,
            )
            &&& after.stroke_target[other] == model.stroke_target[other]
            &&& after.ended.dom().contains(other) == model.ended.dom().contains(other)
            &&& after.ended[other] == model.ended[other]
            &&& after.carry_credit_dabs == model.carry_credit_dabs
            &&& after.prepared == model.prepared
            &&& after.active_program == model.active_program
            &&& after.executing == model.executing
            &&& after.reference_sets == model.reference_sets
            &&& after.bound == model.bound
        }),
{
    assert(model.enqueued(command).commands.drop_last() =~= model.commands);
}

/// A program that is handed in is prepared afterwards with its payload, and one that
/// was prepared with that payload already is left alone. A program can be activated
/// exactly if it is prepared, and is then the active one of its brush. A reference set
/// is there afterwards. Nothing else changes.
pub proof fn lemma_control_commands_take_effect(model: BrushModel, command: BrushControlCommand)
    ensures
        ({
            let after = model.controlled(command);
            let result = model.control_result(command);
            &&& after.commands == model.commands
            &&& after.pending_dab_count == model.pending_dab_count
            &&& after.carry_credit_dabs == model.carry_credit_dabs
            &&& after.active == model.active
            &&& after.executing == model.executing
            &&& after.stroke_reference == model.stroke_reference
            &&& after.stroke_target == model.stroke_target
            &&& after.ended == model.ended
            &&& after.bound == model.bound
            &&& match command {
                BrushControlCommand::UpsertBrushProgram(program) => {
                    let key = BrushProgramKey {
                        brush_id: program.brush_id,
                        program_revision: program.program_revision,
                    };
                    let before = model.prepared.dom().contains(key)
                        && model.prepared[key].payload_hash == program.payload_hash;
                    &&& after.prepared.dom().contains(key)
                    &&& after.prepared[key].payload_hash == program.payload_hash
                    &&& before ==> after.prepared == model.prepared && result == Ok::<
                        BrushControlAck,
                        BrushControlError,
                    >(BrushControlAck::AlreadyPrepared)
                    &&& !before ==> after.prepared[key].wgsl_source == program.wgsl_source@
                        && result == Ok::<BrushControlAck, BrushControlError>(
                        BrushControlAck::Prepared,
                    )
                    &&& forall|other: BrushProgramKey|
                        other != key ==> (#[trigger] after.prepared.dom().contains(other)
                            == model.prepared.dom().contains(other)) && after.prepared[other]
                            == model.prepared[other]
                    &&& after.active_program == model.active_program
                    &&& after.reference_sets == model.reference_sets
                },
                BrushControlCommand::ActivateBrushProgram(activation) => {
                    let key = BrushProgramKey {
                        brush_id: activation.brush_id,
                        program_revision: activation.program_revision,
                    };
                    &&& after.prepared == model.prepared
                    &&& after.reference_sets == model.reference_sets
                    &&& if model.prepared.dom().contains(key) {
                        &&& result == Ok::<BrushControlAck, BrushControlError>(
                            BrushControlAck::Activated,
                        )
                        &&& after.active_program.dom().contains(activation.brush_id)
                        &&& after.active_program[activation.brush_id]
                            == activation.program_revision
                        &&& forall|other: u64|
                            other != activation.brush_id ==> (
                            #[trigger] after.active_program.dom().contains(other)
                                == model.active_program.dom().contains(other))
                                && after.active_program[other] == model.active_program[other]
                    } else {
                        &&& result == Err::<BrushControlAck, BrushControlError>(
                            BrushControlError::ProgramNotPrepared { key },
                        )
                        &&& after.active_program == model.active_program
                    }
                },
                BrushControlCommand::UpsertReferenceSet(set) => {
                    &&& result == Ok::<BrushControlAck, BrushControlError>(
                        BrushControlAck::ReferenceSetUpserted,
                    )
                    &&& after.reference_sets.dom().contains(set.reference_set_id)
                    &&& after.reference_sets[set.reference_set_id] == set.selection
                    &&& forall|other: u64|
                        other != set.reference_set_id ==> (
                        #[trigger] after.reference_sets.dom().contains(other)
                            == model.reference_sets.dom().contains(other))
                            && after.reference_sets[other] == model.reference_sets[other]
                    &&& after.prepared == model.prepared
                    &&& after.active_program == model.active_program
                },
            }
        }),
{
}

/// The first tile that is not bound is named, if there is one.
pub proof fn lemma_first_unbound_tile(
    tiles: Map<BufferTileCoordinate, TileKey>,
    needed: Seq<BufferTileCoordinate>,
)
    ensures
        match crate::renderer::brush::first_unbound(tiles, needed) {
            None => forall|i: int|
                0 <= i < needed.len() ==> tiles.dom().contains(#[trigger] needed[i]),
            Some(coordinate) => exists|i: int|
                0 <= i < needed.len() && #[trigger] needed[i] == coordinate
                    && !tiles.dom().contains(coordinate) && forall|k: int|
                    0 <= k < i ==> tiles.dom().contains(#[trigger] needed[k]),
        },
    decreases needed.len(),
{
    if needed.len() > 0 {
        let shorter = needed.drop_last();
        lemma_first_unbound_tile(tiles, shorter);
        match crate::renderer::brush::first_unbound(tiles, shorter) {
            None => {
                assert forall|k: int| 0 <= k < needed.len() - 1 implies tiles.dom().contains(
                    #[trigger] needed[k],
                ) by {
                    assert(shorter[k] == needed[k]);
                }
                assert(needed[needed.len() - 1] == needed.last());
            },
            Some(coordinate) => {
                let i = choose|i: int|
                    0 <= i < shorter.len() && #[trigger] shorter[i] == coordinate
                        && !tiles.dom().contains(coordinate) && forall|k: int|
                        0 <= k < i ==> tiles.dom().contains(#[trigger] shorter[k]);
                assert(needed[i] == coordinate);
                assert forall|k: int| 0 <= k < i implies tiles.dom().contains(
                    #[trigger] needed[k],
                ) by {
                    assert(shorter[k] == needed[k]);
                }
            },
        }
    }
}

/// The fault is that of the command: a tile that it needs is not bound, or nothing is
/// bound for its stroke.
pub open spec fn is_fault_of(
    model: BrushModel,
    command: BrushRenderCommand,
    fault: BrushExecutionFault,
) -> bool {
    let stroke = stroke_of(command);
    match command {
        BrushRenderCommand::AllocateBufferTiles(allocate) => {
            &&& fault matches BrushExecutionFault::MissingTileBinding {
                stroke_session_id,
                coordinate,
            }
            &&& stroke_session_id == stroke
            &&& allocate.tiles@.contains(coordinate)
            &&& !(model.bound.dom().contains(stroke) && model.bound[stroke].dom().contains(
                coordinate,
            ))
        },
        BrushRenderCommand::MergeBuffer(_) => !model.bound.dom().contains(stroke) && fault == (
        BrushExecutionFault::MergeWithoutTiles { stroke_session_id: stroke }),
        BrushRenderCommand::PushDabChunkF32(_) => !model.bound.dom().contains(stroke) && fault == (
        BrushExecutionFault::DabsWithoutTiles { stroke_session_id: stroke }),
        _ => false,
    }
}

/// Executing a command takes it off the head of the queue. A begin and an end open and
/// close the stroke for execution, a merge takes its tiles away and asks for the merge,
/// and dabs are drawn into the tiles of their stroke. Everything else stays as it is.
pub proof fn lemma_executing_a_command(progress: BrushProgress, target: int)
    requires
        progress.model.inv(),
        progress.model.commands.len() > 0,
    ensures
        ({
            let model = progress.model;
            let command = model.commands[0];
            let stroke = stroke_of(command);
            match progress.step(target) {
                BrushStep::Full => command matches BrushRenderCommand::PushDabChunkF32(chunk)
                    && progress.consumed_dabs + chunk.len > target,
                BrushStep::Fault(fault) => is_fault_of(model, command, fault) && (
                command matches BrushRenderCommand::PushDabChunkF32(chunk)
                    ==> progress.consumed_dabs + chunk.len <= target),
                BrushStep::Next(next) => {
                    &&& next.model.commands == model.commands.skip(1)
                    &&& next.model.carry_credit_dabs == model.carry_credit_dabs
                    &&& next.model.prepared == model.prepared
                    &&& next.model.active_program == model.active_program
                    &&& next.model.active == model.active
                    &&& next.model.reference_sets == model.reference_sets
                    &&& next.model.stroke_reference == model.stroke_reference
                    &&& next.model.stroke_target == model.stroke_target
                    &&& next.model.ended == model.ended
                    &&& forall|other: u64|
                        other != stroke ==> (#[trigger] next.model.bound.dom().contains(other)
                            == model.bound.dom().contains(other)) && next.model.bound[other]
                            == model.bound[other]
                    &&& forall|other: u64|
                        other != stroke ==> (#[trigger] next.model.executing.dom().contains(other)
                            == model.executing.dom().contains(other))
                            && next.model.executing[other] == model.executing[other]
                    &&& match command {
                        BrushRenderCommand::BeginStroke(begin) => {
                            &&& next.model.executing.dom().contains(stroke)
                            &&& next.model.executing[stroke] == program_of(begin)
                            &&& next.model.bound == model.bound
                        },
                        BrushRenderCommand::EndStroke(_) => {
                            &&& !next.model.executing.dom().contains(stroke)
                            &&& next.model.bound == model.bound
                        },
                        BrushRenderCommand::AllocateBufferTiles(allocate) => {
                            &&& next.model.executing == model.executing
                            &&& next.model.bound.dom().contains(stroke)
                            &&& model.bound.dom().contains(stroke) ==> next.model.bound[stroke]
                                == model.bound[stroke]
                            &&& !model.bound.dom().contains(stroke) ==> next.model.bound[stroke]
                                == Map::<BufferTileCoordinate, TileKey>::empty()
                            &&& forall|i: int|
                                0 <= i < allocate.tiles@.len()
                                    ==> next.model.bound[stroke].dom().contains(
                                    #[trigger] allocate.tiles@[i],
                                )
                        },
                        BrushRenderCommand::MergeBuffer(_) => {
                            &&& next.model.executing == model.executing
                            &&& model.bound.dom().contains(stroke)
                            &&& !next.model.bound.dom().contains(stroke)
                        },
                        BrushRenderCommand::PushDabChunkF32(_) => {
                            &&& next.model.executing == model.executing
                            &&& next.model.bound == model.bound
                            &&& model.bound.dom().contains(stroke)
                        },
                    }
                    &&& match command {
                        BrushRenderCommand::MergeBuffer(_) => {
                            &&& next.work == progress.work.push(
                                BrushWorkModel::Merge { stroke_session_id: stroke },
                            )
                            &&& next.consumed_dabs == progress.consumed_dabs
                        },
                        BrushRenderCommand::PushDabChunkF32(chunk) => {
                            &&& next.work == progress.work.push(
                                BrushWorkModel::DispatchChunk { chunk, tiles: model.bound[stroke] },
                            )
                            &&& next.consumed_dabs == progress.consumed_dabs + chunk.len
                            &&& next.consumed_dabs <= target
                            &&& next.model.pending_dab_count == model.pending_dab_count
                                - chunk.len
                        },
                        _ => {
                            &&& next.work == progress.work
                            &&& next.consumed_dabs == progress.consumed_dabs
                            &&& next.model.pending_dab_count == model.pending_dab_count
                        },
                    }
                },
            }
        }),
{
    let model = progress.model;
    crate::renderer::brush::lemma_step_inv(progress, target);
    match model.commands[0] {
        BrushRenderCommand::AllocateBufferTiles(allocate) => {
            lemma_first_unbound_tile(
                model.tiles_of(allocate.stroke_session_id),
                allocate.tiles@,
            );
        },
        _ => {},
    }
}

/// The command asks the device for something: it draws dabs or merges.
pub open spec fn asks_for_work(command: BrushRenderCommand) -> bool {
    command is PushDabChunkF32 || command is MergeBuffer
}

/// The work is what the command asks for: the merge of its stroke, or its own dabs.
pub open spec fn is_work_of(command: BrushRenderCommand, work: BrushWorkModel) -> bool {
    match command {
        BrushRenderCommand::PushDabChunkF32(chunk) => work matches BrushWorkModel::DispatchChunk {
            chunk: drawn,
            ..
        } && drawn == chunk,
        BrushRenderCommand::MergeBuffer(merge) => work == (BrushWorkModel::Merge {
            stroke_session_id: merge.stroke_session_id,
        }),
        _ => false,
    }
}

/// The work of commands that are executed is what each of them asks for, in order.
pub open spec fn is_work_of_all(
    commands: Seq<BrushRenderCommand>,
    work: Seq<BrushWorkModel>,
) -> bool
    decreases commands.len(),
{
    if commands.len() == 0 {
        work.len() == 0
    } else if asks_for_work(commands[0]) {
        work.len() > 0 && is_work_of(commands[0], work[0]) && is_work_of_all(
            commands.skip(1),
            work.skip(1),
        )
    } else {
        is_work_of_all(commands.skip(1), work)
    }
}

/// A frame executes the first commands of the queue, in order, and asks the device for
/// exactly what they ask for. It ends when no command is left, when the dabs of the
/// next no longer fit, or with the fault of the next command. Nothing that was accepted
/// is forgotten: the state of the strokes stays as it is.
pub proof fn lemma_frame_executes_its_commands(progress: BrushProgress, target: int)
    requires
        progress.model.inv(),
    ensures
        ({
            let (after, fault) = progress.run(target);
            let commands = progress.model.commands;
            let count = commands.len() - after.model.commands.len();
            &&& 0 <= count <= commands.len()
            &&& after.model.commands == commands.skip(count)
            &&& progress.work.len() <= after.work.len()
            &&& after.work.take(progress.work.len() as int) == progress.work
            &&& is_work_of_all(
                commands.take(count),
                after.work.skip(progress.work.len() as int),
            )
            &&& match fault {
                Some(fault) => count < commands.len() && is_fault_of(
                    after.model,
                    commands[count],
                    fault,
                ),
                None => count < commands.len() ==> (
                commands[count] matches BrushRenderCommand::PushDabChunkF32(chunk)
                    && after.consumed_dabs + chunk.len > target),
            }
            &&& after.model.active == progress.model.active
            &&& after.model.ended == progress.model.ended
            &&& after.model.stroke_target == progress.model.stroke_target
            &&& after.model.stroke_reference == progress.model.stroke_reference
            &&& after.model.prepared == progress.model.prepared
            &&& after.model.active_program == progress.model.active_program
            &&& after.model.reference_sets == progress.model.reference_sets
            &&& after.model.carry_credit_dabs == progress.model.carry_credit_dabs
        }),
    decreases progress.model.commands.len(),
{
    let commands = progress.model.commands;
    let (after, fault) = progress.run(target);
    assert(progress.work.take(progress.work.len() as int) =~= progress.work);
    assert(progress.work.skip(progress.work.len() as int) =~= Seq::<BrushWorkModel>::empty());
    assert(commands.take(0) =~= Seq::<BrushRenderCommand>::empty());
    assert(commands.skip(0) =~= commands);
    if commands.len() > 0 {
        lemma_executing_a_command(progress, target);
        crate::renderer::brush::lemma_step_inv(progress, target);
        match progress.step(target) {
            BrushStep::Next(next) => {
                lemma_frame_executes_its_commands(next, target);
                let rest = commands.skip(1);
                let fewer = rest.len() - after.model.commands.len();
                let count = fewer + 1;
                assert(rest.skip(fewer) =~= commands.skip(count));
                assert(commands.take(count).skip(1) =~= rest.take(fewer));
                assert(commands.take(count)[0] == commands[0]);
                let all = after.work.skip(progress.work.len() as int);
                assert(after.work.take(progress.work.len() as int) =~= after.work.take(
                    next.work.len() as int,
                ).take(progress.work.len() as int));
                if asks_for_work(commands[0]) {
                    assert(next.work.take(progress.work.len() as int) =~= progress.work);
                    assert(all[0] == after.work.take(next.work.len() as int)[
                    progress.work.len() as int]);
                    assert(all.skip(1) =~= after.work.skip(next.work.len() as int));
                }
                if fewer < rest.len() {
                    assert(rest[fewer] == commands[count]);
                }
            },
            _ => {},
        }
    }
}

/// Binding tiles to places gives each place that is named the tile that it is bound to
/// last, and leaves the others as they are.
pub proof fn lemma_bindings_take_effect(
    tiles: Map<BufferTileCoordinate, TileKey>,
    bindings: Seq<(BufferTileCoordinate, TileKey)>,
    place: BufferTileCoordinate,
)
    ensures
        ({
            let after = crate::renderer::brush::with_bindings(tiles, bindings);
            ||| after.dom().contains(place) == tiles.dom().contains(place) && after[place]
                == tiles[place] && forall|i: int|
                0 <= i < bindings.len() ==> (#[trigger] bindings[i]).0 != place
            ||| after.dom().contains(place) && exists|i: int|
                0 <= i < bindings.len() && (#[trigger] bindings[i]).0 == place && bindings[i].1
                    == after[place] && forall|k: int|
                    i < k < bindings.len() ==> (#[trigger] bindings[k]).0 != place
        }),
    decreases bindings.len(),
{
    if bindings.len() > 0 {
        let shorter = bindings.drop_last();
        let last = bindings.len() - 1;
        lemma_bindings_take_effect(tiles, shorter, place);
        assert(bindings[last] == bindings.last());
        if bindings.last().0 != place {
            if forall|i: int| 0 <= i < shorter.len() ==> (#[trigger] shorter[i]).0 != place {
                assert forall|i: int| 0 <= i < bindings.len() implies (#[trigger] bindings[i]).0
                    != place by {
                    if i < last {
                        assert(shorter[i] == bindings[i]);
                    }
                }
            } else {
                let i = choose|i: int|
                    0 <= i < shorter.len() && (#[trigger] shorter[i]).0 == place && shorter[i].1
                        == crate::renderer::brush::with_bindings(tiles, shorter)[place] && forall|
                        k: int,
                    |
                        i < k < shorter.len() ==> (#[trigger] shorter[k]).0 != place;
                assert(bindings[i] == shorter[i]);
                assert forall|k: int| i < k < bindings.len() implies (#[trigger] bindings[k]).0
                    != place by {
                    if k < last {
                        assert(shorter[k] == bindings[k]);
                    }
                }
            }
        }
    }
}

/// No tile is bound to two places.
pub open spec fn apart(tiles: Map<BufferTileCoordinate, TileKey>) -> bool {
    forall|a: BufferTileCoordinate, b: BufferTileCoordinate| #[trigger]
        tiles.dom().contains(a) && #[trigger] tiles.dom().contains(b) && a != b ==> tiles[a]
            != tiles[b]
}

/// Tiles are bound only where each of them has a place in the atlas. They leave every
/// tile that is bound where it is, and no tile is bound to two places then if none was.
pub proof fn lemma_bindings_leave_tiles_apart(
    tiles: Map<BufferTileCoordinate, TileKey>,
    resolvable: Set<TileKey>,
    bindings: Seq<(BufferTileCoordinate, TileKey)>,
)
    requires
        apart(tiles),
        crate::renderer::brush::bindings_fit(
            tiles,
            resolvable,
            bindings,
            bindings.len() as int,
        ),
    ensures
        ({
            let after = crate::renderer::brush::with_bindings(tiles, bindings);
            &&& apart(after)
            &&& forall|place: BufferTileCoordinate| #[trigger]
                tiles.dom().contains(place) ==> after.dom().contains(place) && after[place]
                    == tiles[place]
            &&& forall|i: int|
                0 <= i < bindings.len() ==> resolvable.contains((#[trigger] bindings[i]).1)
                    && after.dom().contains(bindings[i].0) && after[bindings[i].0] == bindings[i].1
        }),
    decreases bindings.len(),
{
    if bindings.len() > 0 {
        let shorter = bindings.drop_last();
        let before = crate::renderer::brush::with_bindings(tiles, shorter);
        let after = crate::renderer::brush::with_bindings(tiles, bindings);
        let (place, key) = bindings.last();
        assert forall|i: int| 0 <= i < shorter.len() implies
            crate::renderer::brush::binding_fits(
            crate::renderer::brush::with_bindings(tiles, #[trigger] shorter.take(i)),
            resolvable,
            shorter[i],
        ) by {
            assert(shorter.take(i) =~= bindings.take(i));
        }
        lemma_bindings_leave_tiles_apart(tiles, resolvable, shorter);
        let last = bindings.len() - 1;
        assert(bindings.take(last) =~= shorter);
        assert(crate::renderer::brush::binding_fits(before, resolvable, bindings[last]));
        assert forall|other: BufferTileCoordinate| #[trigger]
            before.dom().contains(other) && other != place implies before[other] != key by {}
        assert forall|i: int| 0 <= i < bindings.len() implies resolvable.contains(
            (#[trigger] bindings[i]).1,
        ) && after.dom().contains(bindings[i].0) && after[bindings[i].0] == bindings[i].1 by {
            if i < last {
                assert(shorter[i] == bindings[i]);
                assert(before.dom().contains(bindings[i].0));
            }
        }
    }
}

/// A tile can be bound to a place exactly if it has a place in the atlas, is bound to no
/// other place, and the place has no other tile. A fault says which of these fails, the
/// first of them where several do.
pub proof fn lemma_binding_is_refused(
    fault: BrushBindingFault,
    tiles: Map<BufferTileCoordinate, TileKey>,
    resolvable: Set<TileKey>,
    place: BufferTileCoordinate,
    key: TileKey,
)
    ensures
        ({
            let fits = crate::renderer::brush::binding_fits(tiles, resolvable, (place, key));
            let elsewhere = exists|other: BufferTileCoordinate|
                other != place && #[trigger] tiles.dom().contains(other) && tiles[other] == key;
            let taken = tiles.dom().contains(place) && tiles[place] != key;
            &&& fits <==> resolvable.contains(key) && !elsewhere && !taken
            &&& crate::renderer::brush::explains(fault, tiles, resolvable, (place, key)) ==> !fits
                && match fault {
                BrushBindingFault::UnresolvedTile { coordinate } => !resolvable.contains(key)
                    && coordinate == place,
                BrushBindingFault::DuplicateTile { tile_key, previous, coordinate } => {
                    &&& resolvable.contains(key)
                    &&& tile_key == key
                    &&& coordinate == place
                    &&& previous != place
                    &&& tiles.dom().contains(previous)
                    &&& tiles[previous] == key
                },
                BrushBindingFault::ConflictingTile { coordinate, previous, tile_key } => {
                    &&& resolvable.contains(key)
                    &&& !elsewhere
                    &&& taken
                    &&& coordinate == place
                    &&& previous == tiles[place]
                    &&& tile_key == key
                },
            }
        }),
{
}

} // verus!
