//! Brush programs, strokes and the commands that draw them.
use std::collections::VecDeque;
use vstd::prelude::*;

use crate::collections::KeyMap;
use crate::render_protocol::{
    BrushBufferAllocate, BrushBufferMerge, BrushControlAck, BrushControlCommand, BrushDabChunkF32,
    BrushProgramActivation,
    BrushProgramKey, BrushProgramUpsert, BrushRenderCommand, BrushStrokeBegin, BrushStrokeEnd,
    BufferTileCoordinate, ReferenceLayerSelection, ReferenceSetUpsert,
    BRUSH_DAB_CHUNK_CAPACITY,
};
use crate::tiles::{TileAddress, TileKey};

verus! {

broadcast use crate::collections::group_viewed;

#[derive(Debug, Clone, Copy, PartialEq, Eq, Structural)]
pub enum BrushControlError {
    ProgramNotPrepared { key: BrushProgramKey },
}

#[derive(Debug, Clone, Copy, PartialEq, Eq, Structural)]
pub enum BrushRenderEnqueueError {
    ProgramNotPrepared { key: BrushProgramKey },
    ProgramNotActivated { key: BrushProgramKey },
    BeginWithPendingMerge,
    ReferenceSetMissing { reference_set_id: u64 },
    StrokeProgramMismatch {
        stroke_session_id: u64,
        expected: BrushProgramKey,
        received: BrushProgramKey,
    },
    UnknownStroke { stroke_session_id: u64 },
    MergeBeforeStrokeEnd { stroke_session_id: u64 },
    MergeTargetLayerMismatch {
        stroke_session_id: u64,
        expected_layer_id: u64,
        received_layer_id: u64,
    },
}

/// A program that has been made ready for the device.
#[derive(Debug)]
pub struct PreparedBrushProgram {
    pub payload_hash: u64,
    pub wgsl_source: String,
}

/// A program that has been made ready.
#[verifier::ext_equal]
pub struct PreparedModel {
    pub payload_hash: u64,
    pub wgsl_source: Seq<char>,
}

impl View for PreparedBrushProgram {
    type V = PreparedModel;

    open spec fn view(&self) -> PreparedModel {
        PreparedModel { payload_hash: self.payload_hash, wgsl_source: self.wgsl_source@ }
    }
}

/// The tiles that a stroke's buffer has been given.
pub type StrokeTiles = KeyMap<BufferTileCoordinate, TileKey>;

/// The state of all brush work.
pub struct BrushWorkState {
    pub pending_commands: VecDeque<BrushRenderCommand>,
    pub pending_dab_count: u64,
    /// The dabs of an earlier frame's quota that may be spent in the next.
    pub carry_credit_dabs: u8,
    pub prepared_programs: KeyMap<BrushProgramKey, PreparedBrushProgram>,
    pub active_program_by_brush: KeyMap<u64, u64>,
    /// The strokes that have begun and not ended, as far as commands are
    /// accepted.
    pub active_strokes: KeyMap<u64, BrushProgramKey>,
    /// The strokes that have begun and not ended, as far as commands are
    /// executed.
    pub executing_strokes: KeyMap<u64, BrushProgramKey>,
    pub reference_sets: KeyMap<u64, ReferenceLayerSelection>,
    pub stroke_reference_set: KeyMap<u64, u64>,
    pub stroke_target_layer: KeyMap<u64, u64>,
    /// The strokes that have ended and not been merged, with the layer that
    /// each is to be merged into.
    pub ended_strokes_pending_merge: KeyMap<u64, u64>,
    pub bound_buffer_tile_keys_by_stroke: KeyMap<u64, StrokeTiles>,
}

/// The state of all brush work, as a plain value.
#[verifier::ext_equal]
pub struct BrushModel {
    pub commands: Seq<BrushRenderCommand>,
    pub pending_dab_count: u64,
    pub carry_credit_dabs: u8,
    pub prepared: Map<BrushProgramKey, PreparedModel>,
    pub active_program: Map<u64, u64>,
    pub active: Map<u64, BrushProgramKey>,
    pub executing: Map<u64, BrushProgramKey>,
    pub reference_sets: Map<u64, ReferenceLayerSelection>,
    pub stroke_reference: Map<u64, u64>,
    pub stroke_target: Map<u64, u64>,
    pub ended: Map<u64, u64>,
    pub bound: Map<u64, Map<BufferTileCoordinate, TileKey>>,
}

impl View for BrushWorkState {
    type V = BrushModel;

    open spec fn view(&self) -> BrushModel {
        BrushModel {
            commands: self.pending_commands@,
            pending_dab_count: self.pending_dab_count,
            carry_credit_dabs: self.carry_credit_dabs,
            prepared: crate::collections::viewed(self.prepared_programs@),
            active_program: self.active_program_by_brush@,
            active: self.active_strokes@,
            executing: self.executing_strokes@,
            reference_sets: self.reference_sets@,
            stroke_reference: self.stroke_reference_set@,
            stroke_target: self.stroke_target_layer@,
            ended: self.ended_strokes_pending_merge@,
            bound: crate::collections::viewed(self.bound_buffer_tile_keys_by_stroke@),
        }
    }
}

/// The number of dabs that a command draws.
pub open spec fn dabs_of(command: BrushRenderCommand) -> int {
    match command {
        BrushRenderCommand::PushDabChunkF32(chunk) => chunk.len as int,
        _ => 0,
    }
}

/// The number of dabs that several commands draw.
pub open spec fn total_dabs(commands: Seq<BrushRenderCommand>) -> int
    decreases commands.len(),
{
    if commands.len() == 0 {
        0
    } else {
        total_dabs(commands.drop_last()) + dabs_of(commands.last())
    }
}

/// The strokes that are open after commands, if `open` are open before: a
/// begin opens its stroke, and an end closes it.
pub open spec fn open_after(open: Set<u64>, commands: Seq<BrushRenderCommand>) -> Set<u64>
    decreases commands.len(),
{
    if commands.len() == 0 {
        open
    } else {
        let earlier = open_after(open, commands.drop_last());
        match commands.last() {
            BrushRenderCommand::BeginStroke(begin) => earlier.insert(begin.stroke_session_id),
            BrushRenderCommand::EndStroke(end) => earlier.remove(end.stroke_session_id),
            _ => earlier,
        }
    }
}

/// Every chunk of dabs belongs to a stroke that is open when the chunk's turn
/// comes, and is a valid chunk.
pub open spec fn chunks_in_strokes(open: Set<u64>, commands: Seq<BrushRenderCommand>) -> bool {
    forall|i: int|
        0 <= i < commands.len() && (#[trigger] commands[i]) is PushDabChunkF32
            ==> commands[i]->PushDabChunkF32_0.inv() && open_after(open, commands.take(i)).contains(
            commands[i]->PushDabChunkF32_0.stroke_session_id,
        )
}

impl BrushModel {
    /// What every operation relies on and keeps:
    /// - each active stroke has a target layer and a reference set;
    /// - the dabs that are pending are counted;
    /// - no two places of a stroke's buffer are bound to one tile;
    /// - once the queue has been executed, the executing strokes are the
    ///   active ones, and every chunk of dabs in it comes within its stroke.
    pub open spec fn inv(&self) -> bool {
        &&& self.stroke_target.dom() == self.active.dom()
        &&& self.stroke_reference.dom() == self.active.dom()
        &&& self.pending_dab_count == total_dabs(self.commands)
        &&& open_after(self.executing.dom(), self.commands) == self.active.dom()
        &&& chunks_in_strokes(self.executing.dom(), self.commands)
        &&& self.carry_credit_dabs < BRUSH_DAB_CHUNK_CAPACITY
        &&& forall|stroke: u64| #[trigger]
            self.bound.dom().contains(stroke) ==> self.bound[stroke].is_injective()
    }

    /// Nothing has happened yet.
    pub open spec fn initial() -> BrushModel {
        BrushModel {
            commands: Seq::empty(),
            pending_dab_count: 0,
            carry_credit_dabs: 0,
            prepared: Map::empty(),
            active_program: Map::empty(),
            active: Map::empty(),
            executing: Map::empty(),
            reference_sets: Map::empty(),
            stroke_reference: Map::empty(),
            stroke_target: Map::empty(),
            ended: Map::empty(),
            bound: Map::empty(),
        }
    }

    /// The program with this payload has been made ready already.
    pub open spec fn is_prepared(&self, key: BrushProgramKey, payload_hash: u64) -> bool {
        self.prepared.dom().contains(key) && self.prepared[key].payload_hash == payload_hash
    }

    /// Why a stroke cannot begin, if it cannot.
    pub open spec fn begin_error(&self, begin: BrushStrokeBegin) -> Option<
        BrushRenderEnqueueError,
    > {
        let key = BrushProgramKey {
            brush_id: begin.brush_id,
            program_revision: begin.program_revision,
        };
        if !self.prepared.dom().contains(key) {
            Some(BrushRenderEnqueueError::ProgramNotPrepared { key })
        } else if !(self.active_program.dom().contains(begin.brush_id)
            && self.active_program[begin.brush_id] == begin.program_revision) {
            Some(BrushRenderEnqueueError::ProgramNotActivated { key })
        } else if self.ended != Map::<u64, u64>::empty() {
            Some(BrushRenderEnqueueError::BeginWithPendingMerge)
        } else if !self.reference_sets.dom().contains(begin.reference_set_id) {
            Some(
                BrushRenderEnqueueError::ReferenceSetMissing {
                    reference_set_id: begin.reference_set_id,
                },
            )
        } else if self.active.dom().contains(begin.stroke_session_id)
            && self.active[begin.stroke_session_id] != key {
            Some(
                BrushRenderEnqueueError::StrokeProgramMismatch {
                    stroke_session_id: begin.stroke_session_id,
                    expected: self.active[begin.stroke_session_id],
                    received: key,
                },
            )
        } else {
            None
        }
    }

    /// The error of a command for a stroke that is not active.
    pub open spec fn unknown_stroke(&self, stroke_session_id: u64) -> Option<
        BrushRenderEnqueueError,
    > {
        if self.active.dom().contains(stroke_session_id) {
            None
        } else {
            Some(BrushRenderEnqueueError::UnknownStroke { stroke_session_id })
        }
    }

    /// Why a command is not accepted, if it is not.
    pub open spec fn enqueue_error(&self, command: BrushRenderCommand) -> Option<
        BrushRenderEnqueueError,
    > {
        match command {
            BrushRenderCommand::BeginStroke(begin) => self.begin_error(begin),
            BrushRenderCommand::AllocateBufferTiles(allocate) => self.unknown_stroke(
                allocate.stroke_session_id,
            ),
            BrushRenderCommand::PushDabChunkF32(chunk) => self.unknown_stroke(
                chunk.stroke_session_id,
            ),
            BrushRenderCommand::EndStroke(end) => self.unknown_stroke(end.stroke_session_id),
            BrushRenderCommand::MergeBuffer(merge) => if !self.ended.dom().contains(
                merge.stroke_session_id,
            ) {
                Some(
                    BrushRenderEnqueueError::MergeBeforeStrokeEnd {
                        stroke_session_id: merge.stroke_session_id,
                    },
                )
            } else if self.ended[merge.stroke_session_id] != merge.target_layer_id {
                Some(
                    BrushRenderEnqueueError::MergeTargetLayerMismatch {
                        stroke_session_id: merge.stroke_session_id,
                        expected_layer_id: self.ended[merge.stroke_session_id],
                        received_layer_id: merge.target_layer_id,
                    },
                )
            } else {
                None
            },
        }
    }

    /// The strokes after a command has been accepted.
    pub open spec fn accepted(&self, command: BrushRenderCommand) -> BrushModel {
        match command {
            BrushRenderCommand::BeginStroke(begin) => BrushModel {
                active: self.active.insert(
                    begin.stroke_session_id,
                    BrushProgramKey {
                        brush_id: begin.brush_id,
                        program_revision: begin.program_revision,
                    },
                ),
                stroke_reference: self.stroke_reference.insert(
                    begin.stroke_session_id,
                    begin.reference_set_id,
                ),
                stroke_target: self.stroke_target.insert(
                    begin.stroke_session_id,
                    begin.target_layer_id,
                ),
                ..*self
            },
            BrushRenderCommand::EndStroke(end) => self.ended_stroke(end.stroke_session_id),
            BrushRenderCommand::MergeBuffer(merge) => BrushModel {
                ended: self.ended.remove(merge.stroke_session_id),
                ..*self
            },
            _ => *self,
        }
    }

    /// The strokes after one of them has ended: it is no longer active, and
    /// waits to be merged into its target layer.
    pub open spec fn ended_stroke(&self, stroke_session_id: u64) -> BrushModel {
        BrushModel {
            active: self.active.remove(stroke_session_id),
            stroke_reference: self.stroke_reference.remove(stroke_session_id),
            stroke_target: self.stroke_target.remove(stroke_session_id),
            ended: self.ended.insert(stroke_session_id, self.stroke_target[stroke_session_id]),
            ..*self
        }
    }

    /// The state after a command has been queued.
    pub open spec fn enqueued(&self, command: BrushRenderCommand) -> BrushModel {
        BrushModel {
            commands: self.commands.push(command),
            pending_dab_count: (self.pending_dab_count + dabs_of(command)) as u64,
            ..self.accepted(command)
        }
    }
}

/// Queueing a command that is accepted keeps the invariant.
pub proof fn lemma_enqueued_inv(model: BrushModel, command: BrushRenderCommand)
    requires
        model.inv(),
        model.enqueue_error(command) is None,
        model.pending_dab_count + dabs_of(command) <= u64::MAX,
        command matches BrushRenderCommand::PushDabChunkF32(chunk) ==> chunk.inv(),
    ensures
        model.enqueued(command).inv(),
{
    let next = model.enqueued(command);
    let open = model.executing.dom();
    assert(next.commands.drop_last() =~= model.commands);
    assert(next.stroke_target.dom() =~= next.active.dom());
    assert(next.stroke_reference.dom() =~= next.active.dom());
    assert(open_after(open, next.commands) =~= next.active.dom());
    assert forall|i: int|
        0 <= i < next.commands.len() && (#[trigger] next.commands[i]) is PushDabChunkF32 implies
        next.commands[i]->PushDabChunkF32_0.inv()
        && open_after(open, next.commands.take(i)).contains(
        next.commands[i]->PushDabChunkF32_0.stroke_session_id,
    ) by {
        if i < model.commands.len() {
            assert(next.commands[i] == model.commands[i]);
            assert(next.commands.take(i) =~= model.commands.take(i));
        } else {
            assert(next.commands.take(i) =~= model.commands);
        }
    }
}

impl Default for BrushWorkState {
    fn default() -> (state: Self)
        ensures
            state@ == BrushModel::initial(),
            state@.inv(),
    {
        let state = BrushWorkState {
            pending_commands: VecDeque::new(),
            pending_dab_count: 0,
            carry_credit_dabs: 0,
            prepared_programs: KeyMap::new(),
            active_program_by_brush: KeyMap::new(),
            active_strokes: KeyMap::new(),
            executing_strokes: KeyMap::new(),
            reference_sets: KeyMap::new(),
            stroke_reference_set: KeyMap::new(),
            stroke_target_layer: KeyMap::new(),
            ended_strokes_pending_merge: KeyMap::new(),
            bound_buffer_tile_keys_by_stroke: KeyMap::new(),
        };
        assert(state@ =~= BrushModel::initial());
        state
    }
}

impl BrushModel {
    /// The answer to a command that prepares or activates something.
    pub open spec fn control_result(&self, command: BrushControlCommand) -> Result<
        BrushControlAck,
        BrushControlError,
    > {
        match command {
            BrushControlCommand::UpsertBrushProgram(program) => if self.is_prepared(
                BrushProgramKey {
                    brush_id: program.brush_id,
                    program_revision: program.program_revision,
                },
                program.payload_hash,
            ) {
                Ok(BrushControlAck::AlreadyPrepared)
            } else {
                Ok(BrushControlAck::Prepared)
            },
            BrushControlCommand::ActivateBrushProgram(activation) => {
                let key = BrushProgramKey {
                    brush_id: activation.brush_id,
                    program_revision: activation.program_revision,
                };
                if self.prepared.dom().contains(key) {
                    Ok(BrushControlAck::Activated)
                } else {
                    Err(BrushControlError::ProgramNotPrepared { key })
                }
            },
            BrushControlCommand::UpsertReferenceSet(_) => Ok(BrushControlAck::ReferenceSetUpserted),
        }
    }

    /// The state after such a command.
    pub open spec fn controlled(&self, command: BrushControlCommand) -> BrushModel {
        match command {
            BrushControlCommand::UpsertBrushProgram(program) => {
                let key = BrushProgramKey {
                    brush_id: program.brush_id,
                    program_revision: program.program_revision,
                };
                if self.is_prepared(key, program.payload_hash) {
                    *self
                } else {
                    BrushModel {
                        prepared: self.prepared.insert(
                            key,
                            PreparedModel {
                                payload_hash: program.payload_hash,
                                wgsl_source: program.wgsl_source@,
                            },
                        ),
                        ..*self
                    }
                }
            },
            BrushControlCommand::ActivateBrushProgram(activation) => {
                let key = BrushProgramKey {
                    brush_id: activation.brush_id,
                    program_revision: activation.program_revision,
                };
                if self.prepared.dom().contains(key) {
                    BrushModel {
                        active_program: self.active_program.insert(
                            activation.brush_id,
                            activation.program_revision,
                        ),
                        ..*self
                    }
                } else {
                    *self
                }
            },
            BrushControlCommand::UpsertReferenceSet(set) => BrushModel {
                reference_sets: self.reference_sets.insert(set.reference_set_id, set.selection),
                ..*self
            },
        }
    }
}

impl BrushWorkState {
    /// Prepares or activates a brush program, or defines a reference set. When
    /// the answer is that a program is now prepared, it is to be compiled.
    pub fn apply_brush_control_command(&mut self, command: BrushControlCommand) -> (result: Result<
        BrushControlAck,
        BrushControlError,
    >)
        ensures
            result == old(self)@.control_result(command),
            final(self)@ == old(self)@.controlled(command),
            old(self)@.inv() ==> final(self)@.inv(),
    {
        match command {
            BrushControlCommand::UpsertBrushProgram(program) => {
                Ok(self.upsert_brush_program(program))
            },
            BrushControlCommand::ActivateBrushProgram(activation) => {
                self.activate_brush_program(activation)
            },
            BrushControlCommand::UpsertReferenceSet(reference_set) => {
                Ok(self.upsert_reference_set(reference_set))
            },
        }
    }

    fn upsert_reference_set(&mut self, reference_set: ReferenceSetUpsert) -> (ack: BrushControlAck)
        ensures
            ack == BrushControlAck::ReferenceSetUpserted,
            final(self)@ == (BrushModel {
                reference_sets: old(self)@.reference_sets.insert(
                    reference_set.reference_set_id,
                    reference_set.selection,
                ),
                ..old(self)@
            }),
    {
        self.reference_sets.insert(reference_set.reference_set_id, reference_set.selection);
        BrushControlAck::ReferenceSetUpserted
    }

    fn upsert_brush_program(&mut self, program: BrushProgramUpsert) -> (ack: BrushControlAck)
        ensures
            Ok::<_, BrushControlError>(ack) == old(self)@.control_result(
                BrushControlCommand::UpsertBrushProgram(program),
            ),
            final(self)@ == old(self)@.controlled(BrushControlCommand::UpsertBrushProgram(program)),
    {
        let key = BrushProgramKey {
            brush_id: program.brush_id,
            program_revision: program.program_revision,
        };
        match self.prepared_programs.get(key) {
            Some(prepared) => {
                assert(self@.prepared[key] == prepared@);
                if prepared.payload_hash == program.payload_hash {
                    return BrushControlAck::AlreadyPrepared;
                }
            },
            None => {},
        }
        self.prepared_programs.insert(
            key,
            PreparedBrushProgram {
                payload_hash: program.payload_hash,
                wgsl_source: program.wgsl_source,
            },
        );
        BrushControlAck::Prepared
    }

    fn activate_brush_program(&mut self, activation: BrushProgramActivation) -> (result: Result<
        BrushControlAck,
        BrushControlError,
    >)
        ensures
            result == old(self)@.control_result(
                BrushControlCommand::ActivateBrushProgram(activation),
            ),
            final(self)@ == old(self)@.controlled(
                BrushControlCommand::ActivateBrushProgram(activation),
            ),
    {
        let key = BrushProgramKey {
            brush_id: activation.brush_id,
            program_revision: activation.program_revision,
        };
        if !self.prepared_programs.contains_key(key) {
            return Err(BrushControlError::ProgramNotPrepared { key });
        }
        self.active_program_by_brush.insert(activation.brush_id, activation.program_revision);
        Ok(BrushControlAck::Activated)
    }

    /// Accepts a command and queues it, or says why not.
    pub fn enqueue_brush_render_command(&mut self, command: BrushRenderCommand) -> (result: Result<
        (),
        BrushRenderEnqueueError,
    >)
        requires
            old(self)@.inv(),
            old(self)@.enqueue_error(command) is None ==> old(self)@.pending_dab_count + dabs_of(
                command,
            ) <= u64::MAX,
            command matches BrushRenderCommand::PushDabChunkF32(chunk) ==> chunk.inv(),
        ensures
            final(self)@.inv(),
            match old(self)@.enqueue_error(command) {
                Some(error) => result == Err::<(), _>(error) && final(self)@ == old(self)@,
                None => result is Ok && final(self)@ == old(self)@.enqueued(command),
            },
    {
        let ghost start = self@;
        match &command {
            BrushRenderCommand::BeginStroke(begin) => {
                match self.validate_begin_stroke(*begin) {
                    Ok(()) => {},
                    Err(error) => {
                        return Err(error);
                    },
                }
            },
            BrushRenderCommand::AllocateBufferTiles(allocate) => {
                if !self.active_strokes.contains_key(allocate.stroke_session_id) {
                    return Err(
                        BrushRenderEnqueueError::UnknownStroke {
                            stroke_session_id: allocate.stroke_session_id,
                        },
                    );
                }
            },
            BrushRenderCommand::PushDabChunkF32(chunk) => {
                if !self.active_strokes.contains_key(chunk.stroke_session_id) {
                    return Err(
                        BrushRenderEnqueueError::UnknownStroke {
                            stroke_session_id: chunk.stroke_session_id,
                        },
                    );
                }
                self.pending_dab_count = self.pending_dab_count + chunk.dab_count() as u64;
            },
            BrushRenderCommand::EndStroke(end) => {
                if !self.active_strokes.contains_key(end.stroke_session_id) {
                    return Err(
                        BrushRenderEnqueueError::UnknownStroke {
                            stroke_session_id: end.stroke_session_id,
                        },
                    );
                }
                self.enqueue_end_stroke(end.stroke_session_id);
            },
            BrushRenderCommand::MergeBuffer(merge) => {
                let expected_layer_id: u64 = match self.ended_strokes_pending_merge.get(
                    merge.stroke_session_id,
                ) {
                    Some(layer_id) => *layer_id,
                    None => {
                        return Err(
                            BrushRenderEnqueueError::MergeBeforeStrokeEnd {
                                stroke_session_id: merge.stroke_session_id,
                            },
                        );
                    },
                };
                if expected_layer_id != merge.target_layer_id {
                    return Err(
                        BrushRenderEnqueueError::MergeTargetLayerMismatch {
                            stroke_session_id: merge.stroke_session_id,
                            expected_layer_id,
                            received_layer_id: merge.target_layer_id,
                        },
                    );
                }
                self.ended_strokes_pending_merge.remove(merge.stroke_session_id);
            },
        }
        self.pending_commands.push_back(command);
        proof {
            assert(self@ =~= start.enqueued(command));
            lemma_enqueued_inv(start, command);
        }
        Ok(())
    }

    /// Ends a stroke as far as commands are accepted: it waits to be merged.
    pub fn enqueue_end_stroke(&mut self, stroke_session_id: u64)
        requires
            old(self)@.stroke_target.dom().contains(stroke_session_id),
        ensures
            final(self)@ == old(self)@.ended_stroke(stroke_session_id),
    {
        let target_layer_id: u64 = *self.stroke_target_layer.get(stroke_session_id).unwrap();
        self.active_strokes.remove(stroke_session_id);
        self.stroke_reference_set.remove(stroke_session_id);
        self.stroke_target_layer.remove(stroke_session_id);
        self.ended_strokes_pending_merge.insert(stroke_session_id, target_layer_id);
    }

    fn validate_begin_stroke(&mut self, begin: BrushStrokeBegin) -> (result: Result<
        (),
        BrushRenderEnqueueError,
    >)
        ensures
            match old(self)@.begin_error(begin) {
                Some(error) => result == Err::<(), _>(error) && final(self)@ == old(self)@,
                None => result is Ok && final(self)@ == old(self)@.accepted(
                    BrushRenderCommand::BeginStroke(begin),
                ),
            },
    {
        let key = BrushProgramKey {
            brush_id: begin.brush_id,
            program_revision: begin.program_revision,
        };
        if !self.prepared_programs.contains_key(key) {
            return Err(BrushRenderEnqueueError::ProgramNotPrepared { key });
        }
        let activated = match self.active_program_by_brush.get(begin.brush_id) {
            Some(revision) => *revision == begin.program_revision,
            None => false,
        };
        if !activated {
            return Err(BrushRenderEnqueueError::ProgramNotActivated { key });
        }
        if !self.ended_strokes_pending_merge.is_empty() {
            return Err(BrushRenderEnqueueError::BeginWithPendingMerge);
        }
        if !self.reference_sets.contains_key(begin.reference_set_id) {
            return Err(
                BrushRenderEnqueueError::ReferenceSetMissing {
                    reference_set_id: begin.reference_set_id,
                },
            );
        }
        match self.active_strokes.get(begin.stroke_session_id) {
            Some(expected) => {
                if *expected != key {
                    return Err(
                        BrushRenderEnqueueError::StrokeProgramMismatch {
                            stroke_session_id: begin.stroke_session_id,
                            expected: *expected,
                            received: key,
                        },
                    );
                }
            },
            None => {},
        }
        self.active_strokes.insert(begin.stroke_session_id, key);
        self.stroke_reference_set.insert(begin.stroke_session_id, begin.reference_set_id);
        self.stroke_target_layer.insert(begin.stroke_session_id, begin.target_layer_id);
        Ok(())
    }

    pub fn pending_brush_dab_count(&self) -> (count: u64)
        ensures
            count == self@.pending_dab_count,
    {
        self.pending_dab_count
    }

    pub fn pending_brush_command_count(&self) -> (count: u64)
        ensures
            count == self@.commands.len(),
    {
        self.pending_commands.len() as u64
    }
}

/// Why the commands of a frame cannot be executed.
#[derive(Debug, Clone, Copy, PartialEq, Eq, Structural)]
pub enum BrushExecutionFault {
    /// A tile that a stroke needs has not been bound.
    MissingTileBinding { stroke_session_id: u64, coordinate: BufferTileCoordinate },
    /// A stroke is to be merged that no tile was ever bound for.
    MergeWithoutTiles { stroke_session_id: u64 },
    /// Dabs are to be drawn for a stroke that no tile was ever bound for.
    DabsWithoutTiles { stroke_session_id: u64 },
}

/// Work that the device has to do, in order.
pub enum BrushWork {
    /// Draw the dabs of a chunk into the tiles of its stroke.
    DispatchChunk { chunk: BrushDabChunkF32, tiles: StrokeTiles },
    /// Merge the buffer of a stroke.
    Merge { stroke_session_id: u64 },
}

/// Work that the device has to do.
#[verifier::ext_equal]
pub enum BrushWorkModel {
    DispatchChunk { chunk: BrushDabChunkF32, tiles: Map<BufferTileCoordinate, TileKey> },
    Merge { stroke_session_id: u64 },
}

impl View for BrushWork {
    type V = BrushWorkModel;

    open spec fn view(&self) -> BrushWorkModel {
        match *self {
            BrushWork::DispatchChunk { chunk, tiles } => BrushWorkModel::DispatchChunk {
                chunk,
                tiles: tiles@,
            },
            BrushWork::Merge { stroke_session_id } => BrushWorkModel::Merge { stroke_session_id },
        }
    }
}

/// How far the commands of a frame have been executed.
#[verifier::ext_equal]
pub struct BrushProgress {
    pub model: BrushModel,
    pub consumed_dabs: int,
    pub work: Seq<BrushWorkModel>,
}

/// What comes of executing one more command.
pub enum BrushStep {
    /// The next chunk no longer fits into the frame.
    Full,
    Fault(BrushExecutionFault),
    Next(BrushProgress),
}

/// The first of some tiles that has no key, if one has none.
pub open spec fn first_unbound(
    tiles: Map<BufferTileCoordinate, TileKey>,
    needed: Seq<BufferTileCoordinate>,
) -> Option<BufferTileCoordinate>
    decreases needed.len(),
{
    if needed.len() == 0 {
        None
    } else {
        match first_unbound(tiles, needed.drop_last()) {
            Some(coordinate) => Some(coordinate),
            None => if tiles.dom().contains(needed.last()) {
                None
            } else {
                Some(needed.last())
            },
        }
    }
}

impl BrushModel {
    /// The tiles of a stroke: none if nothing has been bound.
    pub open spec fn tiles_of(&self, stroke_session_id: u64) -> Map<BufferTileCoordinate, TileKey> {
        if self.bound.dom().contains(stroke_session_id) {
            self.bound[stroke_session_id]
        } else {
            Map::empty()
        }
    }

    /// The state without the first command.
    pub open spec fn without_first(&self) -> BrushModel {
        BrushModel {
            commands: self.commands.skip(1),
            pending_dab_count: (self.pending_dab_count - dabs_of(self.commands[0])) as u64,
            ..*self
        }
    }
}

impl BrushProgress {
    /// Executes the first command, where at most `target` dabs are to be drawn
    /// in all:
    /// - a begin and an end open and close their stroke;
    /// - an allocation checks that its tiles are bound;
    /// - a merge takes the tiles away from its stroke;
    /// - a chunk of dabs is drawn if it fits, and else ends the frame.
    pub open spec fn step(&self, target: int) -> BrushStep {
        let rest = self.model.without_first();
        match self.model.commands[0] {
            BrushRenderCommand::BeginStroke(begin) => BrushStep::Next(
                BrushProgress {
                    model: BrushModel {
                        executing: rest.executing.insert(
                            begin.stroke_session_id,
                            BrushProgramKey {
                                brush_id: begin.brush_id,
                                program_revision: begin.program_revision,
                            },
                        ),
                        ..rest
                    },
                    ..*self
                },
            ),
            BrushRenderCommand::AllocateBufferTiles(allocate) => {
                let tiles = rest.tiles_of(allocate.stroke_session_id);
                match first_unbound(tiles, allocate.tiles@) {
                    Some(coordinate) => BrushStep::Fault(
                        BrushExecutionFault::MissingTileBinding {
                            stroke_session_id: allocate.stroke_session_id,
                            coordinate,
                        },
                    ),
                    None => BrushStep::Next(
                        BrushProgress {
                            model: BrushModel {
                                bound: rest.bound.insert(allocate.stroke_session_id, tiles),
                                ..rest
                            },
                            ..*self
                        },
                    ),
                }
            },
            BrushRenderCommand::EndStroke(end) => BrushStep::Next(
                BrushProgress {
                    model: BrushModel {
                        executing: rest.executing.remove(end.stroke_session_id),
                        ..rest
                    },
                    ..*self
                },
            ),
            BrushRenderCommand::MergeBuffer(merge) => if rest.bound.dom().contains(
                merge.stroke_session_id,
            ) {
                BrushStep::Next(
                    BrushProgress {
                        model: BrushModel {
                            bound: rest.bound.remove(merge.stroke_session_id),
                            ..rest
                        },
                        work: self.work.push(
                            BrushWorkModel::Merge { stroke_session_id: merge.stroke_session_id },
                        ),
                        ..*self
                    },
                )
            } else {
                BrushStep::Fault(
                    BrushExecutionFault::MergeWithoutTiles {
                        stroke_session_id: merge.stroke_session_id,
                    },
                )
            },
            BrushRenderCommand::PushDabChunkF32(chunk) => if self.consumed_dabs + chunk.len
                > target {
                BrushStep::Full
            } else if !rest.bound.dom().contains(chunk.stroke_session_id) {
                BrushStep::Fault(
                    BrushExecutionFault::DabsWithoutTiles {
                        stroke_session_id: chunk.stroke_session_id,
                    },
                )
            } else {
                BrushStep::Next(
                    BrushProgress {
                        model: rest,
                        consumed_dabs: self.consumed_dabs + chunk.len,
                        work: self.work.push(
                            BrushWorkModel::DispatchChunk {
                                chunk,
                                tiles: rest.bound[chunk.stroke_session_id],
                            },
                        ),
                    },
                )
            },
        }
    }

    /// Executes commands until none is left, the frame is full, or one cannot
    /// be executed.
    pub open spec fn run(&self, target: int) -> (BrushProgress, Option<BrushExecutionFault>)
        decreases self.model.commands.len(),
    {
        if self.model.commands.len() == 0 {
            (*self, None)
        } else {
            match self.step(target) {
                BrushStep::Full => (*self, None),
                BrushStep::Fault(fault) => (*self, Some(fault)),
                BrushStep::Next(next) => if next.model.commands.len() < self.model.commands.len() {
                    next.run(target)
                } else {
                    (next, None)
                },
            }
        }
    }
}

/// The strokes that are open after commands do not depend on whether the first
/// of them has been executed already.
proof fn lemma_open_after_first(open: Set<u64>, commands: Seq<BrushRenderCommand>)
    requires
        commands.len() > 0,
    ensures
        open_after(open, commands) == open_after(open_after(open, commands.take(1)), commands.skip(1)),
    decreases commands.len(),
{
    if commands.len() == 1 {
        assert(commands.take(1) =~= commands);
        assert(commands.skip(1) =~= Seq::<BrushRenderCommand>::empty());
    } else {
        lemma_open_after_first(open, commands.drop_last());
        assert(commands.drop_last().take(1) =~= commands.take(1));
        assert(commands.drop_last().skip(1) =~= commands.skip(1).drop_last());
        assert(commands.skip(1).last() == commands.last());
    }
}

/// The dabs of the first command count toward the total.
proof fn lemma_total_after_first(commands: Seq<BrushRenderCommand>)
    requires
        commands.len() > 0,
    ensures
        total_dabs(commands) == dabs_of(commands[0]) + total_dabs(commands.skip(1)),
        total_dabs(commands.skip(1)) >= 0,
    decreases commands.len(),
{
    if commands.len() == 1 {
        assert(commands.drop_last() =~= Seq::<BrushRenderCommand>::empty());
        assert(commands.skip(1) =~= Seq::<BrushRenderCommand>::empty());
        assert(total_dabs(commands.drop_last()) == 0);
    } else {
        lemma_total_after_first(commands.drop_last());
        assert(commands.drop_last().skip(1) =~= commands.skip(1).drop_last());
        assert(commands.skip(1).last() == commands.last());
    }
}

/// Executing a command keeps the invariant, and a chunk that is drawn belongs
/// to a stroke that is executing.
pub proof fn lemma_step_inv(progress: BrushProgress, target: int)
    requires
        progress.model.inv(),
        progress.model.commands.len() > 0,
    ensures
        progress.model.commands[0] matches BrushRenderCommand::PushDabChunkF32(chunk)
            ==> progress.model.executing.dom().contains(chunk.stroke_session_id),
        progress.model.pending_dab_count >= dabs_of(progress.model.commands[0]),
        progress.step(target) matches BrushStep::Next(next) ==> next.model.inv()
            && next.model.commands == progress.model.commands.skip(1),
{
    let model = progress.model;
    let commands = model.commands;
    let open = model.executing.dom();
    lemma_open_after_first(open, commands);
    lemma_total_after_first(commands);
    assert(commands.take(0) =~= Seq::<BrushRenderCommand>::empty());
    assert(commands.take(1).drop_last() =~= commands.take(0));
    assert(commands.take(1).last() == commands[0]);
    assert(open_after(open, commands.take(0)) == open);
    match progress.step(target) {
        BrushStep::Next(next) => {
            let next_open = next.model.executing.dom();
            assert(next_open =~= open_after(open, commands.take(1)));
            assert forall|i: int|
                0 <= i < next.model.commands.len() && (
                #[trigger] next.model.commands[i]) is PushDabChunkF32 implies
                next.model.commands[i]->PushDabChunkF32_0.inv()
                && open_after(next_open, next.model.commands.take(i)).contains(
                next.model.commands[i]->PushDabChunkF32_0.stroke_session_id,
            ) by {
                assert(next.model.commands[i] == commands[i + 1]);
                lemma_open_after_first(open, commands.take(i + 1));
                assert(commands.take(i + 1).take(1) =~= commands.take(1));
                assert(commands.take(i + 1).skip(1) =~= next.model.commands.take(i));
            }
            assert forall|stroke: u64| #[trigger]
                next.model.bound.dom().contains(stroke) implies next.model.bound[stroke].is_injective() by {
                assert(model.tiles_of(stroke).is_injective());
            }
        },
        _ => {},
    }
}

impl BrushWorkState {
    /// The program and the tiles with which the dabs of a stroke are drawn.
    pub fn dispatch_context_for_brush_chunk(&self, stroke_session_id: u64) -> (context: (
        BrushProgramKey,
        &StrokeTiles,
    ))
        requires
            self@.executing.dom().contains(stroke_session_id),
            self@.bound.dom().contains(stroke_session_id),
        ensures
            context.0 == self@.executing[stroke_session_id],
            context.1@ == self@.bound[stroke_session_id],
    {
        let key = *self.executing_strokes.get(stroke_session_id).unwrap();
        let tiles = self.bound_buffer_tile_keys_by_stroke.get(stroke_session_id).unwrap();
        (key, tiles)
    }

    /// Executes the queued commands of one frame, in order, as far as its
    /// quota of dabs allows, and gives the work for the device. Credit carries
    /// over from the earlier frame, and to the next one.
    ///
    /// When a command cannot be executed it stays at the head of the queue and
    /// the fault says why.
    pub fn consume_brush_batches_for_frame(&mut self, brush_command_quota: u32) -> (result: Result<
        Vec<BrushWork>,
        BrushExecutionFault,
    >)
        requires
            old(self)@.inv(),
            brush_command_quota + old(self)@.carry_credit_dabs <= u32::MAX,
        ensures
            final(self)@.inv(),
            brush_command_quota == 0 ==> final(self)@ == old(self)@ && result is Ok
                && result->Ok_0@.len() == 0,
            brush_command_quota > 0 ==> {
                let target = brush_command_quota + old(self)@.carry_credit_dabs;
                let (progress, fault) = started(old(self)@).run(target);
                match fault {
                    Some(reason) => result == Err::<Vec<BrushWork>, _>(reason) && final(self)@
                        == progress.model,
                    None => result is Ok && crate::collections::viewed_seq(result->Ok_0@)
                        == progress.work && final(self)@ == (BrushModel {
                        carry_credit_dabs: (target % (BRUSH_DAB_CHUNK_CAPACITY as int)) as u8,
                        ..progress.model
                    }),
                }
            },
    {
        let ghost start = self@;
        let mut work: Vec<BrushWork> = Vec::new();
        if brush_command_quota == 0 {
            return Ok(work);
        }
        let target_dabs: u32 = brush_command_quota + self.carry_credit_dabs as u32;
        let mut consumed_dabs: u32 = 0;
        let ghost target = target_dabs as int;
        let ghost mut progress = started(start);
        proof {
            assert(crate::collections::viewed_seq(work@) =~= Seq::<BrushWorkModel>::empty());
        }
        while self.pending_commands.len() > 0
            invariant
                self@ == progress.model,
                self@.inv(),
                self@.carry_credit_dabs == start.carry_credit_dabs,
                consumed_dabs == progress.consumed_dabs,
                consumed_dabs <= target_dabs,
                target == target_dabs,
                crate::collections::viewed_seq(work@) == progress.work,
                started(start).run(target) == progress.run(target),
                brush_command_quota > 0,
                target == brush_command_quota + start.carry_credit_dabs,
                start == old(self)@,
            ensures
                progress.run(target) == (progress, None::<BrushExecutionFault>),
            decreases self.pending_commands@.len(),
        {
            proof {
                lemma_step_inv(progress, target);
                assert(self.pending_commands@ == progress.model.commands);
            }
            let ghost rest = progress.model.without_first();
            match &self.pending_commands[0] {
                BrushRenderCommand::BeginStroke(begin) => {
                    let key = BrushProgramKey {
                        brush_id: begin.brush_id,
                        program_revision: begin.program_revision,
                    };
                    self.executing_strokes.insert(begin.stroke_session_id, key);
                },
                BrushRenderCommand::AllocateBufferTiles(allocate) => {
                    match self.unbound_tile(allocate) {
                        Some(coordinate) => {
                            return Err(
                                BrushExecutionFault::MissingTileBinding {
                                    stroke_session_id: allocate.stroke_session_id,
                                    coordinate,
                                },
                            );
                        },
                        None => {},
                    }
                    if !self.bound_buffer_tile_keys_by_stroke.contains_key(
                        allocate.stroke_session_id,
                    ) {
                        self.bound_buffer_tile_keys_by_stroke.insert(
                            allocate.stroke_session_id,
                            KeyMap::new(),
                        );
                    }
                    proof {
                        assert(self@.bound =~= rest.bound.insert(
                            allocate.stroke_session_id,
                            rest.tiles_of(allocate.stroke_session_id),
                        ));
                    }
                },
                BrushRenderCommand::EndStroke(end) => {
                    self.executing_strokes.remove(end.stroke_session_id);
                },
                BrushRenderCommand::MergeBuffer(merge) => {
                    if !self.bound_buffer_tile_keys_by_stroke.contains_key(
                        merge.stroke_session_id,
                    ) {
                        return Err(
                            BrushExecutionFault::MergeWithoutTiles {
                                stroke_session_id: merge.stroke_session_id,
                            },
                        );
                    }
                    self.bound_buffer_tile_keys_by_stroke.remove(merge.stroke_session_id);
                    work.push(BrushWork::Merge { stroke_session_id: merge.stroke_session_id });
                },
                BrushRenderCommand::PushDabChunkF32(chunk) => {
                    let chunk_dabs: u32 = chunk.dab_count() as u32;
                    if chunk_dabs > target_dabs - consumed_dabs {
                        break ;
                    }
                    match self.bound_buffer_tile_keys_by_stroke.get(chunk.stroke_session_id) {
                        Some(tiles) => {
                            work.push(
                                BrushWork::DispatchChunk {
                                    chunk: copy_chunk(chunk),
                                    tiles: tiles.duplicate(),
                                },
                            );
                        },
                        None => {
                            return Err(
                                BrushExecutionFault::DabsWithoutTiles {
                                    stroke_session_id: chunk.stroke_session_id,
                                },
                            );
                        },
                    }
                    consumed_dabs = consumed_dabs + chunk_dabs;
                    self.pending_dab_count = self.pending_dab_count - chunk_dabs as u64;
                },
            }
            let _ = self.pending_commands.pop_front();
            proof {
                let next = progress.step(target)->Next_0;
                assert(self.pending_commands@ =~= progress.model.commands.skip(1));
                assert(self@ =~= next.model);
                progress = next;
            }
        }
        proof {
            assert(target % 16 < 16);
        }
        self.carry_credit_dabs = (target_dabs % BRUSH_DAB_CHUNK_CAPACITY as u32) as u8;
        Ok(work)
    }

    /// The first of the tiles to allocate that has not been bound.
    fn unbound_tile(&self, allocate: &BrushBufferAllocate) -> (unbound: Option<
        BufferTileCoordinate,
    >)
        ensures
            unbound == first_unbound(
                self@.tiles_of(allocate.stroke_session_id),
                allocate.tiles@,
            ),
    {
        let bound = self.bound_buffer_tile_keys_by_stroke.get(allocate.stroke_session_id);
        let ghost tiles = self@.tiles_of(allocate.stroke_session_id);
        let mut index: usize = 0;
        while index < allocate.tiles.len()
            invariant
                index <= allocate.tiles@.len(),
                tiles == self@.tiles_of(allocate.stroke_session_id),
                bound matches Some(map) ==> map@ == tiles,
                bound is None ==> tiles == Map::<BufferTileCoordinate, TileKey>::empty(),
                first_unbound(tiles, allocate.tiles@.take(index as int)) is None,
            decreases allocate.tiles@.len() - index,
        {
            let coordinate = allocate.tiles[index];
            let found = match bound {
                Some(map) => map.contains_key(coordinate),
                None => false,
            };
            proof {
                let longer = allocate.tiles@.take(index + 1);
                assert(longer.drop_last() =~= allocate.tiles@.take(index as int));
                if !found {
                    lemma_first_unbound_extends(tiles, longer, allocate.tiles@);
                }
            }
            if !found {
                return Some(coordinate);
            }
            index += 1;
        }
        assert(allocate.tiles@.take(index as int) =~= allocate.tiles@);
        None
    }
}

/// The first tile without a key stays the first when more tiles are asked for.
proof fn lemma_first_unbound_extends(
    tiles: Map<BufferTileCoordinate, TileKey>,
    shorter: Seq<BufferTileCoordinate>,
    longer: Seq<BufferTileCoordinate>,
)
    requires
        shorter.len() <= longer.len(),
        shorter == longer.take(shorter.len() as int),
        first_unbound(tiles, shorter) is Some,
    ensures
        first_unbound(tiles, longer) == first_unbound(tiles, shorter),
    decreases longer.len(),
{
    if shorter.len() == longer.len() {
        assert(shorter =~= longer);
    } else {
        assert(longer.drop_last().take(shorter.len() as int) =~= shorter);
        lemma_first_unbound_extends(tiles, shorter, longer.drop_last());
    }
}

/// The start of a frame: nothing has been executed yet.
pub open spec fn started(model: BrushModel) -> BrushProgress {
    BrushProgress { model, consumed_dabs: 0, work: Seq::empty() }
}

/// A chunk with the same dabs.
fn copy_chunk(chunk: &BrushDabChunkF32) -> (copy: BrushDabChunkF32)
    ensures
        copy == *chunk,
{
    BrushDabChunkF32 {
        stroke_session_id: chunk.stroke_session_id,
        len: chunk.len,
        canvas_x: chunk.canvas_x,
        canvas_y: chunk.canvas_y,
        pressure: chunk.pressure,
    }
}

/// Why a tile cannot be bound to a place of a stroke's buffer.
#[derive(Debug, Clone, Copy, PartialEq, Eq, Structural)]
pub enum BrushBindingFault {
    /// The tile has no place in the atlas.
    UnresolvedTile { coordinate: BufferTileCoordinate },
    /// The tile is bound to another place already.
    DuplicateTile {
        tile_key: TileKey,
        previous: BufferTileCoordinate,
        coordinate: BufferTileCoordinate,
    },
    /// The place has another tile already.
    ConflictingTile { coordinate: BufferTileCoordinate, previous: TileKey, tile_key: TileKey },
}

/// The tile is bound to a place other than `coordinate`.
pub open spec fn bound_elsewhere(
    tiles: Map<BufferTileCoordinate, TileKey>,
    coordinate: BufferTileCoordinate,
    tile_key: TileKey,
) -> bool {
    exists|other: BufferTileCoordinate|
        other != coordinate && #[trigger] tiles.dom().contains(other) && tiles[other] == tile_key
}

/// A binding can be added to those that there are.
pub open spec fn binding_fits(
    tiles: Map<BufferTileCoordinate, TileKey>,
    resolvable: Set<TileKey>,
    binding: (BufferTileCoordinate, TileKey),
) -> bool {
    &&& resolvable.contains(binding.1)
    &&& !bound_elsewhere(tiles, binding.0, binding.1)
    &&& tiles.dom().contains(binding.0) ==> tiles[binding.0] == binding.1
}

/// The fault says why a binding cannot be added.
pub open spec fn explains(
    fault: BrushBindingFault,
    tiles: Map<BufferTileCoordinate, TileKey>,
    resolvable: Set<TileKey>,
    binding: (BufferTileCoordinate, TileKey),
) -> bool {
    let (place, key) = binding;
    if !resolvable.contains(key) {
        fault == BrushBindingFault::UnresolvedTile { coordinate: place }
    } else if bound_elsewhere(tiles, place, key) {
        fault matches BrushBindingFault::DuplicateTile { tile_key, previous, coordinate }
            && tile_key == key && coordinate == place && previous != place
            && tiles.dom().contains(previous) && tiles[previous] == key
    } else {
        tiles.dom().contains(place) && tiles[place] != key && fault
            == BrushBindingFault::ConflictingTile {
            coordinate: place,
            previous: tiles[place],
            tile_key: key,
        }
    }
}

/// The tiles after bindings have been added.
pub open spec fn with_bindings(
    tiles: Map<BufferTileCoordinate, TileKey>,
    bindings: Seq<(BufferTileCoordinate, TileKey)>,
) -> Map<BufferTileCoordinate, TileKey>
    decreases bindings.len(),
{
    if bindings.len() == 0 {
        tiles
    } else {
        with_bindings(tiles, bindings.drop_last()).insert(bindings.last().0, bindings.last().1)
    }
}

/// Each of the first `count` bindings fits when its turn comes.
pub open spec fn bindings_fit(
    tiles: Map<BufferTileCoordinate, TileKey>,
    resolvable: Set<TileKey>,
    bindings: Seq<(BufferTileCoordinate, TileKey)>,
    count: int,
) -> bool {
    forall|i: int|
        0 <= i < count ==> binding_fits(
            with_bindings(tiles, #[trigger] bindings.take(i)),
            resolvable,
            bindings[i],
        )
}

impl BrushWorkState {
    /// Binds tiles to the places of a stroke's buffer, all of them or none.
    ///
    /// A tile has one place and a place has one tile: a binding may be
    /// repeated, but not changed.
    pub fn bind_brush_buffer_tiles(
        &mut self,
        stroke_session_id: u64,
        tile_bindings: &Vec<(BufferTileCoordinate, TileKey)>,
        addresses: &KeyMap<TileKey, TileAddress>,
    ) -> (result: Result<(), BrushBindingFault>)
        requires
            old(self)@.inv(),
        ensures
            final(self)@.inv(),
            match result {
                Ok(()) => bindings_fit(
                    old(self)@.tiles_of(stroke_session_id),
                    addresses@.dom(),
                    tile_bindings@,
                    tile_bindings@.len() as int,
                ) && final(self)@ == (BrushModel {
                    bound: old(self)@.bound.insert(
                        stroke_session_id,
                        with_bindings(old(self)@.tiles_of(stroke_session_id), tile_bindings@),
                    ),
                    ..old(self)@
                }),
                Err(fault) => final(self)@ == old(self)@ && exists|i: int|
                    0 <= i < tile_bindings@.len() && bindings_fit(
                        old(self)@.tiles_of(stroke_session_id),
                        addresses@.dom(),
                        tile_bindings@,
                        i,
                    ) && explains(
                        fault,
                        with_bindings(
                            old(self)@.tiles_of(stroke_session_id),
                            #[trigger] tile_bindings@.take(i),
                        ),
                        addresses@.dom(),
                        tile_bindings@[i],
                    ),
            },
    {
        let ghost start = self@.tiles_of(stroke_session_id);
        let mut tiles: StrokeTiles = match self.bound_buffer_tile_keys_by_stroke.get(
            stroke_session_id,
        ) {
            Some(bound) => bound.duplicate(),
            None => KeyMap::new(),
        };
        assert(tiles@ == start);
        assert(tile_bindings@.take(0) =~= Seq::<(BufferTileCoordinate, TileKey)>::empty());
        let mut index: usize = 0;
        while index < tile_bindings.len()
            invariant
                index <= tile_bindings@.len(),
                self@ == old(self)@,
                self@.inv(),
                start == self@.tiles_of(stroke_session_id),
                tiles@ == with_bindings(start, tile_bindings@.take(index as int)),
                tiles@.is_injective(),
                bindings_fit(start, addresses@.dom(), tile_bindings@, index as int),
            decreases tile_bindings@.len() - index,
        {
            let (coordinate, tile_key) = tile_bindings[index];
            match binding_fault(&tiles, addresses, coordinate, tile_key) {
                Some(fault) => {
                    return Err(fault);
                },
                None => {},
            }
            tiles.insert(coordinate, tile_key);
            proof {
                let longer = tile_bindings@.take(index + 1);
                assert(longer.drop_last() =~= tile_bindings@.take(index as int));
                assert(longer.last() == tile_bindings@[index as int]);
            }
            index += 1;
        }
        assert(tile_bindings@.take(index as int) =~= tile_bindings@);
        self.bound_buffer_tile_keys_by_stroke.insert(stroke_session_id, tiles);
        Ok(())
    }
}

/// Why a binding cannot be added, if it cannot.
fn binding_fault(
    tiles: &StrokeTiles,
    addresses: &KeyMap<TileKey, TileAddress>,
    coordinate: BufferTileCoordinate,
    tile_key: TileKey,
) -> (fault: Option<BrushBindingFault>)
    ensures
        match fault {
            Some(reason) => explains(reason, tiles@, addresses@.dom(), (coordinate, tile_key))
                && !binding_fits(tiles@, addresses@.dom(), (coordinate, tile_key)),
            None => binding_fits(tiles@, addresses@.dom(), (coordinate, tile_key)),
        },
{
    if !addresses.contains_key(tile_key) {
        return Some(BrushBindingFault::UnresolvedTile { coordinate });
    }
    let places = tiles.keys();
    let mut index: usize = 0;
    while index < places.len()
        invariant
            index <= places@.len(),
            places@.to_set() == tiles@.dom(),
            addresses@.dom().contains(tile_key),
            forall|i: int|
                0 <= i < index && #[trigger] places@[i] != coordinate ==> tiles@[places@[i]]
                    != tile_key,
        decreases places@.len() - index,
    {
        let previous = places[index];
        proof {
            assert(places@.to_set().contains(previous));
        }
        let bound = tiles.get(previous).unwrap();
        if previous != coordinate && *bound == tile_key {
            return Some(BrushBindingFault::DuplicateTile { tile_key, previous, coordinate });
        }
        index += 1;
    }
    proof {
        assert forall|other: BufferTileCoordinate|
            other != coordinate && #[trigger] tiles@.dom().contains(
                other,
            ) implies tiles@[other] != tile_key by {
            assert(places@.to_set().contains(other));
            let i = choose|i: int| 0 <= i < places@.len() && places@[i] == other;
            assert(places@[i] != coordinate);
        }
    }
    match tiles.get(coordinate) {
        Some(previous) => {
            if *previous != tile_key {
                return Some(
                    BrushBindingFault::ConflictingTile { coordinate, previous: *previous, tile_key },
                );
            }
        },
        None => {},
    }
    None
}

/// While a stroke has ended and has not been merged, no stroke begins.
pub proof fn lemma_no_begin_before_merge(model: BrushModel, begin: BrushStrokeBegin, stroke: u64)
    requires
        model.ended.dom().contains(stroke),
    ensures
        model.enqueue_error(BrushRenderCommand::BeginStroke(begin)) is Some,
{
    assert(!Map::<u64, u64>::empty().dom().contains(stroke));
}

/// Ending a stroke while its dabs are still queued takes nothing away that
/// drawing them needs: the queue keeps its order, and the strokes that are
/// executing keep their programs and tiles.
pub proof fn lemma_end_keeps_pending_dabs(model: BrushModel, end: BrushStrokeEnd)
    requires
        model.inv(),
        model.enqueue_error(BrushRenderCommand::EndStroke(end)) is None,
    ensures
        model.enqueued(BrushRenderCommand::EndStroke(end)).executing == model.executing,
        model.enqueued(BrushRenderCommand::EndStroke(end)).bound == model.bound,
        model.enqueued(BrushRenderCommand::EndStroke(end)).pending_dab_count
            == model.pending_dab_count,
        model.enqueued(BrushRenderCommand::EndStroke(end)).commands == model.commands.push(
            BrushRenderCommand::EndStroke(end),
        ),
{
}

/// A stroke that has begun can be ended and then merged into its layer, and
/// leaves no trace among the strokes when all three commands have been
/// accepted.
pub proof fn lemma_stroke_lifecycle(
    model: BrushModel,
    begin: BrushStrokeBegin,
    end: BrushStrokeEnd,
    merge: BrushBufferMerge,
)
    requires
        model.inv(),
        model.enqueue_error(BrushRenderCommand::BeginStroke(begin)) is None,
        end.stroke_session_id == begin.stroke_session_id,
        merge.stroke_session_id == begin.stroke_session_id,
        merge.target_layer_id == begin.target_layer_id,
    ensures
        ({
            let begun = model.enqueued(BrushRenderCommand::BeginStroke(begin));
            let ended = begun.enqueued(BrushRenderCommand::EndStroke(end));
            let merged = ended.enqueued(BrushRenderCommand::MergeBuffer(merge));
            &&& begun.enqueue_error(BrushRenderCommand::EndStroke(end)) is None
            &&& ended.enqueue_error(BrushRenderCommand::MergeBuffer(merge)) is None
            &&& merged.active == model.active.remove(begin.stroke_session_id)
            &&& merged.ended == model.ended
        }),
{
    let begun = model.enqueued(BrushRenderCommand::BeginStroke(begin));
    let ended = begun.enqueued(BrushRenderCommand::EndStroke(end));
    let merged = ended.enqueued(BrushRenderCommand::MergeBuffer(merge));
    assert(merged.active =~= model.active.remove(begin.stroke_session_id));
    assert(merged.ended =~= model.ended);
}

/// A frame draws no more dabs than it may, takes commands off the head of the
/// queue only, and counts down the pending dabs by what it has drawn.
pub proof fn lemma_frame_stays_within_target(progress: BrushProgress, target: int)
    requires
        progress.model.inv(),
        progress.consumed_dabs <= target,
    ensures
        ({
            let (after, fault) = progress.run(target);
            &&& after.model.inv()
            &&& progress.consumed_dabs <= after.consumed_dabs <= target
            &&& after.model.pending_dab_count + after.consumed_dabs
                == progress.model.pending_dab_count + progress.consumed_dabs
            &&& after.model.commands.len() <= progress.model.commands.len()
            &&& after.model.commands == progress.model.commands.skip(
                progress.model.commands.len() - after.model.commands.len(),
            )
        }),
    decreases progress.model.commands.len(),
{
    let commands = progress.model.commands;
    let (after, fault) = progress.run(target);
    if commands.len() > 0 {
        lemma_step_inv(progress, target);
        match progress.step(target) {
            BrushStep::Next(next) => {
                lemma_frame_stays_within_target(next, target);
                assert(after.model.commands =~= commands.skip(
                    commands.len() - after.model.commands.len(),
                ));
            },
            _ => {
                assert(commands.skip(0) =~= commands);
            },
        }
    } else {
        assert(commands.skip(0) =~= commands);
    }
}

} // verus!
