//! Commands on tiles of the atlas: which of them can be carried out, and what
//! they need first.
use vstd::prelude::*;

use crate::gpu_runtime::atlas_runtime::TextureFormat;
use crate::gpu_runtime::native_words::native_bytes;
use crate::render_protocol::BlendMode;
use crate::scalar::FloatBits;
use crate::tiles::TileKey;

verus! {

/// A tile that is put onto a target.
#[derive(Debug, Clone, Copy, PartialEq)]
pub struct TileCompositeSource {
    pub tile_key: TileKey,
    pub opacity: FloatBits,
    pub blend_mode: BlendMode,
}

/// Where a tile is shown, and how much of it.
#[derive(Debug, Clone, Copy, PartialEq)]
pub struct PresentTileParams {
    pub target_min_px: [FloatBits; 2],
    pub target_max_px: [FloatBits; 2],
    pub source_width: u32,
    pub source_height: u32,
}

#[derive(Debug, Clone, Copy, PartialEq, Eq, Structural)]
pub struct CopyTileCommand {
    pub source_tile_key: TileKey,
    pub destination_tile_key: TileKey,
}

#[derive(Debug, Clone, Copy, PartialEq, Eq, Structural)]
pub struct ApplyDabCommand {
    pub brush_id: u64,
    pub destination_tile_key: TileKey,
}

#[derive(Debug, Clone, Copy, PartialEq, Eq, Structural)]
pub struct MergeTileCommand {
    pub brush_id: u64,
    pub intermediate_tile_key: TileKey,
}

#[derive(Debug, Clone, PartialEq)]
pub struct CompositeTileCommand {
    pub target_tile_key: TileKey,
    pub inputs: Vec<TileCompositeSource>,
}

#[derive(Debug, Clone, Copy, PartialEq)]
pub struct PresentTileCommand {
    pub source_tile_key: TileKey,
    pub params: PresentTileParams,
}

/// A command on tiles.
#[derive(Debug, Clone, PartialEq)]
pub enum RenderCommand {
    CopyTile(CopyTileCommand),
    ApplyDab(ApplyDabCommand),
    MergeTile(MergeTileCommand),
    CompositeTile(CompositeTileCommand),
    PresentTile(PresentTileCommand),
}

/// The shaders of a brush.
#[derive(Debug, Clone, Copy, PartialEq, Eq, Structural)]
pub enum BrushShaderStage {
    ApplyDab,
    MergeTile,
}

/// The shader of a brush: the format that its intermediate tiles have.
#[derive(Debug, Clone, Copy, PartialEq, Eq, Structural)]
pub struct BrushShaderSpec {
    pub intermediate_format: TextureFormat,
}

#[derive(Debug, Clone, Copy, PartialEq, Eq)]
pub enum TileRendererError {
    UnsupportedCommand(&'static str),
    MissingPresentTarget,
    MissingBrushShader { brush_id: u64, stage: BrushShaderStage },
}

/// Why a command cannot be carried out: drawing with brushes needs something that
/// can, and showing a tile needs somewhere to show it.
pub open spec fn command_fault(
    command: RenderCommand,
    draws_with_brushes: bool,
    has_present_target: bool,
) -> Option<TileRendererError> {
    match command {
        RenderCommand::ApplyDab(_) if !draws_with_brushes => Some(
            TileRendererError::UnsupportedCommand("ApplyDab"),
        ),
        RenderCommand::MergeTile(_) if !draws_with_brushes => Some(
            TileRendererError::UnsupportedCommand("MergeTile"),
        ),
        RenderCommand::PresentTile(_) if !has_present_target => Some(
            TileRendererError::MissingPresentTarget,
        ),
        _ => None,
    }
}

/// Checks that a command can be carried out.
pub fn check_command(
    command: &RenderCommand,
    draws_with_brushes: bool,
    has_present_target: bool,
) -> (result: Result<(), TileRendererError>)
    ensures
        result == (match command_fault(*command, draws_with_brushes, has_present_target) {
            Some(fault) => Err::<(), TileRendererError>(fault),
            None => Ok(()),
        }),
{
    match command {
        RenderCommand::ApplyDab(_) => if draws_with_brushes {
            Ok(())
        } else {
            Err(TileRendererError::UnsupportedCommand("ApplyDab"))
        },
        RenderCommand::MergeTile(_) => if draws_with_brushes {
            Ok(())
        } else {
            Err(TileRendererError::UnsupportedCommand("MergeTile"))
        },
        RenderCommand::PresentTile(_) => if has_present_target {
            Ok(())
        } else {
            Err(TileRendererError::MissingPresentTarget)
        },
        _ => Ok(()),
    }
}

/// The brush that a command draws with, and the tile on which it does.
pub open spec fn brush_use(command: RenderCommand) -> Option<(u64, TileKey)> {
    match command {
        RenderCommand::ApplyDab(dab) => Some((dab.brush_id, dab.destination_tile_key)),
        RenderCommand::MergeTile(merge) => Some((merge.brush_id, merge.intermediate_tile_key)),
        _ => None,
    }
}

/// The brush that a command draws with, and the tile on which it does.
pub fn brush_of_command(command: &RenderCommand) -> (used: Option<(u64, TileKey)>)
    ensures
        used == brush_use(*command),
{
    match command {
        RenderCommand::ApplyDab(dab) => Some((dab.brush_id, dab.destination_tile_key)),
        RenderCommand::MergeTile(merge) => Some((merge.brush_id, merge.intermediate_tile_key)),
        _ => None,
    }
}

/// The first place of a backend among these.
pub open spec fn first_backend(backend_ids: Seq<Option<u8>>, backend_id: u8) -> Option<int>
    decreases backend_ids.len(),
{
    if backend_ids.len() == 0 {
        None
    } else {
        match first_backend(backend_ids.drop_last(), backend_id) {
            Some(index) => Some(index),
            None => if backend_ids.last() == Some(backend_id) {
                Some(backend_ids.len() - 1)
            } else {
                None
            },
        }
    }
}

/// A backend whose texture is needed in a format.
#[derive(Debug, Clone, Copy, PartialEq, Eq, Structural)]
pub struct FormatRequest {
    pub backend_index: usize,
    pub format: TextureFormat,
}

/// What a command that draws with a brush needs, given the shader that its brush
/// has.
pub open spec fn format_request(
    brush_id: u64,
    tile_key: TileKey,
    shader_spec: Option<BrushShaderSpec>,
    backend_ids: Seq<Option<u8>>,
) -> Result<Option<FormatRequest>, TileRendererError> {
    match shader_spec {
        None => Err(
            TileRendererError::MissingBrushShader { brush_id, stage: BrushShaderStage::ApplyDab },
        ),
        Some(shader) => match first_backend(backend_ids, tile_key.backend) {
            Some(index) => Ok(
                Some(
                    FormatRequest {
                        backend_index: index as usize,
                        format: shader.intermediate_format,
                    },
                ),
            ),
            None => Ok(None),
        },
    }
}

/// What a command that draws with a brush needs, given the shader that its brush
/// has: the backend of its tile in the format of the shader. A tile of an unknown
/// backend needs nothing; a brush without a shader is an error.
pub fn brush_format_request(
    brush_id: u64,
    tile_key: TileKey,
    shader_spec: Option<BrushShaderSpec>,
    backend_ids: &Vec<Option<u8>>,
) -> (request: Result<Option<FormatRequest>, TileRendererError>)
    ensures
        request == format_request(brush_id, tile_key, shader_spec, backend_ids@),
{
    let shader = match shader_spec {
        Some(shader) => shader,
        None => {
            return Err(
                TileRendererError::MissingBrushShader {
                    brush_id,
                    stage: BrushShaderStage::ApplyDab,
                },
            );
        },
    };
    let backend_id: u8 = tile_key.backend_index();
    let mut index: usize = 0;
    assert(backend_ids@.take(0) =~= Seq::<Option<u8>>::empty());
    while index < backend_ids.len()
        invariant
            index <= backend_ids@.len(),
            first_backend(backend_ids@.take(index as int), backend_id) is None,
            backend_id == tile_key.backend,
            shader_spec == Some(shader),
        decreases backend_ids@.len() - index,
    {
        proof {
            assert(backend_ids@.take(index + 1).drop_last() =~= backend_ids@.take(index as int));
            assert(backend_ids@.take(index + 1).last() == backend_ids@[index as int]);
        }
        if let Some(present) = backend_ids[index] {
            if present == backend_id {
                proof {
                    lemma_first_backend_stays(backend_ids@, index + 1, backend_id);
                }
                return Ok(
                    Some(
                        FormatRequest { backend_index: index, format: shader.intermediate_format },
                    ),
                );
            }
        }
        index += 1;
    }
    assert(backend_ids@.take(index as int) =~= backend_ids@);
    Ok(None)
}

proof fn lemma_first_backend_stays(backend_ids: Seq<Option<u8>>, count: int, backend_id: u8)
    requires
        0 <= count <= backend_ids.len(),
        first_backend(backend_ids.take(count), backend_id) is Some,
    ensures
        first_backend(backend_ids, backend_id) == first_backend(
            backend_ids.take(count),
            backend_id,
        ),
    decreases backend_ids.len() - count,
{
    if count < backend_ids.len() {
        assert(backend_ids.take(count + 1).drop_last() =~= backend_ids.take(count));
        lemma_first_backend_stays(backend_ids, count + 1, backend_id);
    } else {
        assert(backend_ids.take(count) =~= backend_ids);
    }
}

/// A step of carrying out a batch of commands.
#[derive(Debug, Clone, Copy, PartialEq, Eq, Structural)]
pub enum BatchStep {
    /// The texture of a backend is made ready.
    EnsureBackend { backend_index: usize },
    /// What was cleared is cleared on the textures too.
    ApplyClearBatches,
    /// A command is encoded.
    EncodeCommand { command_index: usize },
    /// What was encoded is submitted.
    Submit,
}

/// How a batch of commands is carried out. With a fault, it ends in it after the
/// steps.
#[derive(Debug, PartialEq, Eq)]
pub struct BatchPlan {
    pub steps: Vec<BatchStep>,
    pub fault: Option<TileRendererError>,
}

/// The number of commands before the first one that cannot be carried out.
pub open spec fn accepted(
    commands: Seq<RenderCommand>,
    draws_with_brushes: bool,
    has_present_target: bool,
) -> nat
    decreases commands.len(),
{
    if commands.len() == 0 {
        0
    } else {
        let earlier = accepted(commands.drop_last(), draws_with_brushes, has_present_target);
        if earlier < commands.len() - 1 || command_fault(
            commands.last(),
            draws_with_brushes,
            has_present_target,
        ) is Some {
            earlier
        } else {
            commands.len()
        }
    }
}

/// The steps of a batch: the backends are made ready in order, then clears are
/// applied, then commands are encoded up to the first that cannot be carried out,
/// and what was encoded is submitted if there is no such command.
pub open spec fn batch_steps(
    backend_count: nat,
    commands: Seq<RenderCommand>,
    draws_with_brushes: bool,
    has_present_target: bool,
) -> Seq<BatchStep> {
    let encoded = accepted(commands, draws_with_brushes, has_present_target);
    let ready = Seq::new(
        backend_count,
        |i: int| BatchStep::EnsureBackend { backend_index: i as usize },
    ).push(BatchStep::ApplyClearBatches);
    let steps = ready + Seq::new(
        encoded,
        |i: int| BatchStep::EncodeCommand { command_index: i as usize },
    );
    if 0 < commands.len() == encoded {
        steps.push(BatchStep::Submit)
    } else {
        steps
    }
}

/// Plans a batch of commands on textures of some backends.
pub fn plan_batch(
    backend_count: usize,
    commands: &[RenderCommand],
    draws_with_brushes: bool,
    has_present_target: bool,
) -> (plan: BatchPlan)
    ensures
        plan.steps@ == batch_steps(
            backend_count as nat,
            commands@,
            draws_with_brushes,
            has_present_target,
        ),
        plan.fault == ({
            let encoded = accepted(commands@, draws_with_brushes, has_present_target);
            if encoded < commands@.len() {
                command_fault(commands@[encoded as int], draws_with_brushes, has_present_target)
            } else {
                None
            }
        }),
{
    let mut steps: Vec<BatchStep> = Vec::new();
    let mut backend_index: usize = 0;
    while backend_index < backend_count
        invariant
            backend_index <= backend_count,
            steps@ == Seq::new(
                backend_index as nat,
                |i: int| BatchStep::EnsureBackend { backend_index: i as usize },
            ),
        decreases backend_count - backend_index,
    {
        steps.push(BatchStep::EnsureBackend { backend_index });
        backend_index += 1;
        assert(steps@ =~= Seq::new(
            backend_index as nat,
            |i: int| BatchStep::EnsureBackend { backend_index: i as usize },
        ));
    }
    steps.push(BatchStep::ApplyClearBatches);
    let ghost ready = steps@;
    let mut command_index: usize = 0;
    assert(commands@.take(0) =~= Seq::<RenderCommand>::empty());
    assert(steps@ =~= ready + Seq::new(
        0,
        |i: int| BatchStep::EncodeCommand { command_index: i as usize },
    ));
    while command_index < commands.len()
        invariant
            command_index <= commands@.len(),
            accepted(commands@.take(command_index as int), draws_with_brushes, has_present_target)
                == command_index,
            ready == Seq::new(
                backend_count as nat,
                |i: int| BatchStep::EnsureBackend { backend_index: i as usize },
            ).push(BatchStep::ApplyClearBatches),
            steps@ == ready + Seq::new(
                command_index as nat,
                |i: int| BatchStep::EncodeCommand { command_index: i as usize },
            ),
        decreases commands@.len() - command_index,
    {
        let ghost next = commands@.take(command_index + 1);
        proof {
            assert(next.drop_last() =~= commands@.take(command_index as int));
            assert(next.last() == commands@[command_index as int]);
        }
        if let Err(fault) = check_command(
            &commands[command_index],
            draws_with_brushes,
            has_present_target,
        ) {
            proof {
                lemma_later_commands_are_not_reached(
                    commands@,
                    command_index + 1,
                    draws_with_brushes,
                    has_present_target,
                );
            }
            return BatchPlan { steps, fault: Some(fault) };
        }
        steps.push(BatchStep::EncodeCommand { command_index });
        command_index += 1;
        assert(steps@ =~= ready + Seq::new(
            command_index as nat,
            |i: int| BatchStep::EncodeCommand { command_index: i as usize },
        ));
    }
    assert(commands@.take(command_index as int) =~= commands@);
    if commands.len() > 0 {
        steps.push(BatchStep::Submit);
    }
    BatchPlan { steps, fault: None }
}

/// Once a command cannot be carried out, no later one is reached.
proof fn lemma_later_commands_are_not_reached(
    commands: Seq<RenderCommand>,
    count: int,
    draws_with_brushes: bool,
    has_present_target: bool,
)
    requires
        0 <= count <= commands.len(),
        accepted(commands.take(count), draws_with_brushes, has_present_target) < count,
    ensures
        accepted(commands, draws_with_brushes, has_present_target) == accepted(
            commands.take(count),
            draws_with_brushes,
            has_present_target,
        ),
    decreases commands.len() - count,
{
    if count < commands.len() {
        assert(commands.take(count + 1).drop_last() =~= commands.take(count));
        lemma_later_commands_are_not_reached(
            commands,
            count + 1,
            draws_with_brushes,
            has_present_target,
        );
    } else {
        assert(commands.take(count) =~= commands);
    }
}

/// A batch is carried out as a whole or not at all: something is submitted
/// exactly if there are commands and each of them can be carried out.
pub proof fn lemma_faulty_batch_is_not_submitted(
    backend_count: nat,
    commands: Seq<RenderCommand>,
    draws_with_brushes: bool,
    has_present_target: bool,
)
    ensures
        batch_steps(
            backend_count,
            commands,
            draws_with_brushes,
            has_present_target,
        ).contains(BatchStep::Submit) <==> commands.len() > 0 && forall|i: int|
            0 <= i < commands.len() ==> command_fault(
                #[trigger] commands[i],
                draws_with_brushes,
                has_present_target,
            ) is None,
{
    let steps = batch_steps(backend_count, commands, draws_with_brushes, has_present_target);
    let encoded = accepted(commands, draws_with_brushes, has_present_target);
    lemma_accepted_commands(commands, draws_with_brushes, has_present_target);
    if 0 < commands.len() == encoded {
        assert(steps.last() == BatchStep::Submit);
    }
}

/// The commands before the first faulty one have no fault, and the first faulty
/// one has.
pub proof fn lemma_accepted_commands(
    commands: Seq<RenderCommand>,
    draws_with_brushes: bool,
    has_present_target: bool,
)
    ensures
        accepted(commands, draws_with_brushes, has_present_target) <= commands.len(),
        forall|i: int|
            0 <= i < accepted(commands, draws_with_brushes, has_present_target) ==> command_fault(
                #[trigger] commands[i],
                draws_with_brushes,
                has_present_target,
            ) is None,
        accepted(commands, draws_with_brushes, has_present_target) < commands.len()
            ==> command_fault(
            commands[accepted(commands, draws_with_brushes, has_present_target) as int],
            draws_with_brushes,
            has_present_target,
        ) is Some,
    decreases commands.len(),
{
    if commands.len() > 0 {
        let shorter = commands.drop_last();
        lemma_accepted_commands(shorter, draws_with_brushes, has_present_target);
        assert forall|i: int|
            0 <= i < accepted(commands, draws_with_brushes, has_present_target) implies
            command_fault(
            #[trigger] commands[i],
            draws_with_brushes,
            has_present_target,
        ) is None by {
            if i < shorter.len() {
                assert(shorter[i] == commands[i]);
            }
        }
        let earlier = accepted(shorter, draws_with_brushes, has_present_target);
        if earlier < shorter.len() {
            assert(shorter[earlier as int] == commands[earlier as int]);
        }
    }
}

/// The formats that a batch of commands needs before it is carried out. With a
/// fault, the batch ends in it after these have been made ready.
#[derive(Debug, PartialEq, Eq)]
pub struct FormatPlan {
    pub requests: Vec<FormatRequest>,
    pub fault: Option<TileRendererError>,
}

/// The formats that commands need, in order, up to the first command whose brush
/// has no shader.
#[verifier::ext_equal]
pub struct FormatModel {
    pub requests: Seq<FormatRequest>,
    pub fault: Option<TileRendererError>,
}

impl View for FormatPlan {
    type V = FormatModel;

    open spec fn view(&self) -> FormatModel {
        FormatModel { requests: self.requests@, fault: self.fault }
    }
}

impl FormatModel {
    /// What is needed once one more command has been looked at, given the shader
    /// that its brush has.
    pub open spec fn with_command(
        &self,
        command: RenderCommand,
        shader_spec: Option<BrushShaderSpec>,
        backend_ids: Seq<Option<u8>>,
    ) -> FormatModel {
        if self.fault is Some {
            *self
        } else {
            match brush_use(command) {
                None => *self,
                Some(used) => match format_request(used.0, used.1, shader_spec, backend_ids) {
                    Err(fault) => FormatModel { fault: Some(fault), ..*self },
                    Ok(None) => *self,
                    Ok(Some(request)) => FormatModel {
                        requests: self.requests.push(request),
                        ..*self
                    },
                },
            }
        }
    }
}

/// The formats that commands need, given the shaders of their brushes.
pub open spec fn needed_formats(
    commands: Seq<RenderCommand>,
    shader_specs: Seq<Option<BrushShaderSpec>>,
    backend_ids: Seq<Option<u8>>,
) -> FormatModel
    decreases commands.len(),
{
    if commands.len() == 0 {
        FormatModel { requests: Seq::empty(), fault: None }
    } else {
        needed_formats(commands.drop_last(), shader_specs, backend_ids).with_command(
            commands.last(),
            shader_specs[commands.len() - 1],
            backend_ids,
        )
    }
}

/// Plans which formats a batch of commands needs, given for each command the
/// shader that its brush has.
pub fn plan_formats(
    commands: &[RenderCommand],
    shader_specs: &Vec<Option<BrushShaderSpec>>,
    backend_ids: &Vec<Option<u8>>,
) -> (plan: FormatPlan)
    requires
        shader_specs@.len() == commands@.len(),
    ensures
        plan@ == needed_formats(commands@, shader_specs@, backend_ids@),
{
    let mut plan = FormatPlan { requests: Vec::new(), fault: None };
    let mut index: usize = 0;
    proof {
        assert(commands@.take(0) =~= Seq::<RenderCommand>::empty());
        assert(plan@ =~= needed_formats(commands@.take(0), shader_specs@, backend_ids@));
    }
    while index < commands.len()
        invariant
            index <= commands@.len(),
            shader_specs@.len() == commands@.len(),
            plan.fault is None,
            plan@ == needed_formats(commands@.take(index as int), shader_specs@, backend_ids@),
        decreases commands@.len() - index,
    {
        let ghost before = plan@;
        let ghost next = commands@.take(index + 1);
        proof {
            assert(next.drop_last() =~= commands@.take(index as int));
            assert(next.last() == commands@[index as int]);
        }
        if let Some((brush_id, tile_key)) = brush_of_command(&commands[index]) {
            match brush_format_request(brush_id, tile_key, shader_specs[index], backend_ids) {
                Ok(Some(request)) => {
                    plan.requests.push(request);
                },
                Ok(None) => {},
                Err(fault) => {
                    plan.fault = Some(fault);
                    proof {
                        assert(plan@ =~= needed_formats(next, shader_specs@, backend_ids@));
                        lemma_format_fault_stays(
                            commands@,
                            shader_specs@,
                            backend_ids@,
                            index + 1,
                        );
                    }
                    return plan;
                },
            }
        }
        assert(plan@ =~= needed_formats(next, shader_specs@, backend_ids@));
        index += 1;
    }
    assert(commands@.take(index as int) =~= commands@);
    plan
}

/// Once a brush has no shader, later commands are not looked at.
proof fn lemma_format_fault_stays(
    commands: Seq<RenderCommand>,
    shader_specs: Seq<Option<BrushShaderSpec>>,
    backend_ids: Seq<Option<u8>>,
    count: int,
)
    requires
        0 <= count <= commands.len(),
        needed_formats(commands.take(count), shader_specs, backend_ids).fault is Some,
    ensures
        needed_formats(commands, shader_specs, backend_ids) == needed_formats(
            commands.take(count),
            shader_specs,
            backend_ids,
        ),
    decreases commands.len() - count,
{
    if count < commands.len() {
        assert(commands.take(count + 1).drop_last() =~= commands.take(count));
        lemma_format_fault_stays(commands, shader_specs, backend_ids, count + 1);
    } else {
        assert(commands.take(count) =~= commands);
    }
}

/// What the shader that shows a tile is told.
#[derive(Debug, Clone, Copy, PartialEq)]
pub struct PresentUniforms {
    pub dst_min_ndc: [FloatBits; 2],
    pub dst_max_ndc: [FloatBits; 2],
    pub source_origin: [u32; 2],
    pub source_layer: u32,
    pub pad0: u32,
    pub source_size: [u32; 2],
    pub padding: [u32; 6],
}

impl PresentUniforms {
    /// The words of the uniform buffer: the size of the source comes behind the
    /// first eight.
    pub open spec fn words(&self) -> Seq<u32> {
        seq![
            self.dst_min_ndc[0].0,
            self.dst_min_ndc[1].0,
            self.dst_max_ndc[0].0,
            self.dst_max_ndc[1].0,
            self.source_origin[0],
            self.source_origin[1],
            self.source_layer,
            self.pad0,
            self.source_size[0],
            self.source_size[1],
        ] + self.padding@
    }

    /// The bytes of the uniform buffer.
    pub fn bytes(&self) -> (bytes: Vec<u8>)
        ensures
            bytes@.len() == 64,
            crate::gpu_runtime::native_words::natively_laid_out(bytes@, self.words()),
    {
        let mut words: Vec<u32> = Vec::new();
        words.push(self.dst_min_ndc[0].0);
        words.push(self.dst_min_ndc[1].0);
        words.push(self.dst_max_ndc[0].0);
        words.push(self.dst_max_ndc[1].0);
        words.push(self.source_origin[0]);
        words.push(self.source_origin[1]);
        words.push(self.source_layer);
        words.push(self.pad0);
        words.push(self.source_size[0]);
        words.push(self.source_size[1]);
        let ghost head = words@;
        let mut index: usize = 0;
        while index < 6
            invariant
                index <= 6,
                head.len() == 10,
                words@ =~= head + self.padding@.take(index as int),
            decreases 6 - index,
        {
            words.push(self.padding[index]);
            index += 1;
        }
        assert(words@ =~= self.words());
        native_bytes(&words)
    }
}

} // verus!
