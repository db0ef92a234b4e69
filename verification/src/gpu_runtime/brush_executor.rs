//! Drawing with brushes: which brushes are configured, and what the GPU needs to
//! be told for one draw.
use vstd::prelude::*;
use vstd::string::StringExecFns;
use wgpu::{TextureFormat as Outside, TextureSampleType as Sampled};

use crate::gpu_runtime::atlas_runtime::{
    AtlasResolvedAddress, AtlasStorageRuntime, BackendBinding, TextureFormat,
};
use crate::gpu_runtime::commands::{BrushId, DrawBlendMode, DrawOp};
use crate::gpu_runtime::context::GpuFeatures;
use crate::gpu_runtime::native_words::native_bytes;
use crate::scalar::FloatBits;
use crate::text::decimal;
use crate::tiles::{TileKey, ATLAS_TILE_SIZE};

verus! {

impl TextureFormat {
    /// The name of a format.
    pub open spec fn name_text(&self) -> Seq<char> {
        match *self {
            TextureFormat::R8Unorm => "R8Unorm"@,
            TextureFormat::Rg8Unorm => "Rg8Unorm"@,
            TextureFormat::Rgba8Unorm => "Rgba8Unorm"@,
            TextureFormat::Bgra8Unorm => "Bgra8Unorm"@,
            TextureFormat::Rgba8UnormSrgb => "Rgba8UnormSrgb"@,
            TextureFormat::Bgra8UnormSrgb => "Bgra8UnormSrgb"@,
            TextureFormat::Rgba16Float => "Rgba16Float"@,
            TextureFormat::R32Float => "R32Float"@,
            TextureFormat::R8Uint => "R8Uint"@,
            TextureFormat::Depth32Float => "Depth32Float"@,
        }
    }

    /// The name of a format.
    pub fn name(&self) -> (name: &'static str)
        ensures
            name@ == self.name_text(),
    {
        match *self {
            TextureFormat::R8Unorm => "R8Unorm",
            TextureFormat::Rg8Unorm => "Rg8Unorm",
            TextureFormat::Rgba8Unorm => "Rgba8Unorm",
            TextureFormat::Bgra8Unorm => "Bgra8Unorm",
            TextureFormat::Rgba8UnormSrgb => "Rgba8UnormSrgb",
            TextureFormat::Bgra8UnormSrgb => "Bgra8UnormSrgb",
            TextureFormat::Rgba16Float => "Rgba16Float",
            TextureFormat::R32Float => "R32Float",
            TextureFormat::R8Uint => "R8Uint",
            TextureFormat::Depth32Float => "Depth32Float",
        }
    }
}

#[derive(Debug, Clone, Copy, PartialEq, Eq)]
pub enum WgpuBrushExecutorError {
    BrushIdOutOfRange { brush_id: BrushId },
    BrushNotConfigured { brush_id: BrushId },
    MissingTargetAtlasBackend { brush_id: BrushId },
    MissingSourceBackend { brush_id: BrushId, backend_id: u8 },
    MissingCacheBackend { brush_id: BrushId, backend_id: u8 },
    PipelineCreationPanicked { brush_id: BrushId, label: &'static str },
    UnsupportedAtlasSampleType {
        brush_id: BrushId,
        backend_role: &'static str,
        format: TextureFormat,
    },
    InconsistentSourceFormat { brush_id: BrushId, expected: TextureFormat, actual: TextureFormat },
}

impl WgpuBrushExecutorError {
    /// The text of the message for an error.
    pub open spec fn text(&self) -> Seq<char> {
        match *self {
            WgpuBrushExecutorError::BrushIdOutOfRange { brush_id } => "brush id "@
                + crate::text::decimal_text(brush_id.0 as nat)
                + " cannot be indexed on this platform"@,
            WgpuBrushExecutorError::BrushNotConfigured { brush_id } => "brush "@
                + crate::text::decimal_text(brush_id.0 as nat) + " has not been configured"@,
            WgpuBrushExecutorError::MissingTargetAtlasBackend { brush_id } =>
                "atlas draw target backend is missing for brush "@ + crate::text::decimal_text(
                    brush_id.0 as nat,
                ),
            WgpuBrushExecutorError::MissingSourceBackend { brush_id, backend_id } =>
                "source backend "@ + crate::text::decimal_text(backend_id as nat)
                    + " is missing for brush "@ + crate::text::decimal_text(brush_id.0 as nat),
            WgpuBrushExecutorError::MissingCacheBackend { brush_id, backend_id } =>
                "cache backend "@ + crate::text::decimal_text(backend_id as nat)
                    + " is missing for brush "@ + crate::text::decimal_text(brush_id.0 as nat),
            WgpuBrushExecutorError::PipelineCreationPanicked { brush_id, label } =>
                "wgpu pipeline creation panicked for brush "@ + crate::text::decimal_text(
                    brush_id.0 as nat,
                ) + " (label: "@ + label@ + ")"@,
            WgpuBrushExecutorError::UnsupportedAtlasSampleType {
                brush_id,
                backend_role,
                format,
            } => backend_role@ + " atlas format "@ + format.name_text()
                + " is unsupported for brush "@ + crate::text::decimal_text(brush_id.0 as nat)
                + " sampling"@,
            WgpuBrushExecutorError::InconsistentSourceFormat { brush_id, expected, actual } =>
                "source format mismatch for brush "@ + crate::text::decimal_text(
                    brush_id.0 as nat,
                ) + ": expected "@ + expected.name_text() + ", got "@ + actual.name_text(),
        }
    }

    /// The message for an error.
    pub fn message(&self) -> (message: String)
        ensures
            message@ == self.text(),
    {
        match *self {
            WgpuBrushExecutorError::BrushIdOutOfRange { brush_id } => "brush id ".to_owned().concat(
                decimal(brush_id.0).as_str(),
            ).concat(" cannot be indexed on this platform"),
            WgpuBrushExecutorError::BrushNotConfigured { brush_id } => "brush ".to_owned().concat(
                decimal(brush_id.0).as_str(),
            ).concat(" has not been configured"),
            WgpuBrushExecutorError::MissingTargetAtlasBackend { brush_id } =>
                "atlas draw target backend is missing for brush ".to_owned().concat(
                    decimal(brush_id.0).as_str(),
                ),
            WgpuBrushExecutorError::MissingSourceBackend { brush_id, backend_id } =>
                "source backend ".to_owned().concat(decimal(backend_id as u64).as_str()).concat(
                    " is missing for brush ",
                ).concat(decimal(brush_id.0).as_str()),
            WgpuBrushExecutorError::MissingCacheBackend { brush_id, backend_id } =>
                "cache backend ".to_owned().concat(decimal(backend_id as u64).as_str()).concat(
                    " is missing for brush ",
                ).concat(decimal(brush_id.0).as_str()),
            WgpuBrushExecutorError::PipelineCreationPanicked { brush_id, label } =>
                "wgpu pipeline creation panicked for brush ".to_owned().concat(
                    decimal(brush_id.0).as_str(),
                ).concat(" (label: ").concat(label).concat(")"),
            WgpuBrushExecutorError::UnsupportedAtlasSampleType {
                brush_id,
                backend_role,
                format,
            } => backend_role.to_owned().concat(" atlas format ").concat(format.name()).concat(
                " is unsupported for brush ",
            ).concat(decimal(brush_id.0).as_str()).concat(" sampling"),
            WgpuBrushExecutorError::InconsistentSourceFormat { brush_id, expected, actual } =>
                "source format mismatch for brush ".to_owned().concat(
                    decimal(brush_id.0).as_str(),
                ).concat(": expected ").concat(expected.name()).concat(", got ").concat(
                    actual.name(),
                ),
        }
    }
}

/// How a texture is sampled in a shader.
#[derive(Debug, Clone, Copy, PartialEq, Eq, Structural)]
pub enum TextureSampleType {
    Float { filterable: bool },
    Depth,
    Sint,
    Uint,
}

/// The bit of the web's features for filtering floats of four bytes.
pub const FLOAT32_FILTERABLE: u64 = 0x1000;

/// How a device samples a format. Floats of four bytes are filtered only where
/// the device has the feature for it.
pub open spec fn sampled_as(format: TextureFormat, features: GpuFeatures) -> TextureSampleType {
    match format {
        TextureFormat::R32Float => TextureSampleType::Float {
            filterable: features.web & FLOAT32_FILTERABLE != 0,
        },
        TextureFormat::R8Uint => TextureSampleType::Uint,
        TextureFormat::Depth32Float => TextureSampleType::Depth,
        _ => TextureSampleType::Float { filterable: true },
    }
}

/// `wgpu::TextureFormat::sample_type` says how a device samples a format. The
/// contract says it for each of the formats here: only that of floats of four
/// bytes depends on the device's features, and none goes without an answer.
#[verifier::external_body]
fn sample_type(format: TextureFormat, features: GpuFeatures) -> (sampled: Option<TextureSampleType>)
    ensures
        sampled == Some(sampled_as(format, features)),
{
    let flags = wgpu::Features::from_internal_flags(
        wgpu::FeaturesWGPU::from_bits_retain(features.native),
        wgpu::FeaturesWebGPU::from_bits_retain(features.web),
    );
    let outside = match format {
        TextureFormat::R8Unorm => Outside::R8Unorm, TextureFormat::Rg8Unorm => Outside::Rg8Unorm,
        TextureFormat::Rgba8Unorm => Outside::Rgba8Unorm, TextureFormat::R8Uint => Outside::R8Uint,
        TextureFormat::Bgra8Unorm => Outside::Bgra8Unorm, TextureFormat::R32Float => Outside::R32Float,
        TextureFormat::Rgba8UnormSrgb => Outside::Rgba8UnormSrgb, TextureFormat::Rgba16Float => Outside::Rgba16Float,
        TextureFormat::Bgra8UnormSrgb => Outside::Bgra8UnormSrgb, TextureFormat::Depth32Float => Outside::Depth32Float,
    };
    Some(match outside.sample_type(None, Some(flags))? {
        Sampled::Float { filterable } => TextureSampleType::Float { filterable }, Sampled::Uint => TextureSampleType::Uint,
        Sampled::Depth => TextureSampleType::Depth, Sampled::Sint => TextureSampleType::Sint,
    })
}

/// Checks how a device samples a format: a brush reads colors, so that a depth
/// format, or one that cannot be sampled, is refused.
pub fn check_sample_type(
    brush_id: BrushId,
    backend_role: &'static str,
    format: TextureFormat,
    sample_type: Option<TextureSampleType>,
) -> (checked: Result<TextureSampleType, WgpuBrushExecutorError>)
    ensures
        checked == (match sample_type {
            Some(TextureSampleType::Depth) | None => Err::<
                TextureSampleType,
                WgpuBrushExecutorError,
            >(
                WgpuBrushExecutorError::UnsupportedAtlasSampleType {
                    brush_id,
                    backend_role,
                    format,
                },
            ),
            Some(sampled) => Ok(sampled),
        }),
{
    match sample_type {
        Some(TextureSampleType::Depth) | None => Err(
            WgpuBrushExecutorError::UnsupportedAtlasSampleType { brush_id, backend_role, format },
        ),
        Some(sampled) => Ok(sampled),
    }
}

/// How a brush reads an atlas of a format on a device, unless the format holds
/// depths, which no brush reads.
pub open spec fn atlas_sample_type(
    brush_id: BrushId,
    backend_role: &'static str,
    format: TextureFormat,
    features: GpuFeatures,
) -> Result<TextureSampleType, WgpuBrushExecutorError> {
    match sampled_as(format, features) {
        TextureSampleType::Depth => Err(
            WgpuBrushExecutorError::UnsupportedAtlasSampleType { brush_id, backend_role, format },
        ),
        sampled => Ok(sampled),
    }
}

/// How a brush reads an atlas of a format on a device, or that it cannot.
pub fn texture_sample_type_for_atlas(
    brush_id: BrushId,
    backend_role: &'static str,
    format: TextureFormat,
    device_features: GpuFeatures,
) -> (checked: Result<TextureSampleType, WgpuBrushExecutorError>)
    ensures
        checked == atlas_sample_type(brush_id, backend_role, format, device_features),
{
    check_sample_type(brush_id, backend_role, format, sample_type(format, device_features))
}

/// The shader of a brush.
#[derive(Debug, Clone, Copy, PartialEq, Eq)]
pub struct BrushGpuPipelineSpec {
    pub label: &'static str,
    pub wgsl_source: &'static str,
    pub vertex_entry: &'static str,
    pub fragment_entry: &'static str,
    pub uses_brush_cache_backend: bool,
    pub cache_backend_format: Option<TextureFormat>,
}

/// A configured brush: its shader, the backend that holds its cache, and which
/// of its pipelines are built.
#[derive(Debug, Clone, Copy, PartialEq, Eq)]
pub struct BrushContext {
    pub pipeline: BrushGpuPipelineSpec,
    pub cache_backend_id: Option<u8>,
    pub alpha_built: bool,
    pub replace_built: bool,
}

/// What the shader of a brush is told.
#[derive(Debug, Clone, Copy, PartialEq, Eq, Structural)]
pub struct BrushShaderParams {
    pub input_len: u32,
    pub tile_origin_x: u32,
    pub tile_origin_y: u32,
    pub tile_layer: u32,
    pub tile_size_x: u32,
    pub tile_size_y: u32,
    pub src_tile_origin_x: u32,
    pub src_tile_origin_y: u32,
    pub src_tile_layer: u32,
    pub cache_tile_origin_x: u32,
    pub cache_tile_origin_y: u32,
    pub cache_tile_layer: u32,
    pub has_cache_tile: u32,
    pub pad1: u32,
    pub pad2: u32,
}

impl BrushShaderParams {
    /// The words of the uniform buffer.
    pub open spec fn words(&self) -> Seq<u32> {
        seq![
            self.input_len,
            self.tile_origin_x,
            self.tile_origin_y,
            self.tile_layer,
            self.tile_size_x,
            self.tile_size_y,
            self.src_tile_origin_x,
            self.src_tile_origin_y,
            self.src_tile_layer,
            self.cache_tile_origin_x,
            self.cache_tile_origin_y,
            self.cache_tile_layer,
            self.has_cache_tile,
            self.pad1,
            self.pad2,
        ]
    }
}

/// The bytes of the uniform buffer.
pub fn encode_shader_params_bytes(params: BrushShaderParams) -> (bytes: Vec<u8>)
    ensures
        bytes@.len() == 60,
        crate::gpu_runtime::native_words::natively_laid_out(bytes@, params.words()),
{
    let mut words: Vec<u32> = Vec::new();
    words.push(params.input_len);
    words.push(params.tile_origin_x);
    words.push(params.tile_origin_y);
    words.push(params.tile_layer);
    words.push(params.tile_size_x);
    words.push(params.tile_size_y);
    words.push(params.src_tile_origin_x);
    words.push(params.src_tile_origin_y);
    words.push(params.src_tile_layer);
    words.push(params.cache_tile_origin_x);
    words.push(params.cache_tile_origin_y);
    words.push(params.cache_tile_layer);
    words.push(params.has_cache_tile);
    words.push(params.pad1);
    words.push(params.pad2);
    assert(words@ =~= params.words());
    native_bytes(&words)
}

/// The words of the input buffer. A buffer cannot be empty: without input it
/// holds one zero.
pub open spec fn input_words(input: Seq<FloatBits>) -> Seq<u32> {
    if input.len() == 0 {
        seq![0u32]
    } else {
        input.map_values(|value: FloatBits| value.0)
    }
}

/// The bytes of the input buffer.
pub fn encode_input_bytes(input: &Vec<FloatBits>) -> (bytes: Vec<u8>)
    ensures
        crate::gpu_runtime::native_words::natively_laid_out(bytes@, input_words(input@)),
{
    let mut words: Vec<u32> = Vec::new();
    if input.len() == 0 {
        words.push(0);
    }
    let mut index: usize = 0;
    while index < input.len()
        invariant
            index <= input@.len(),
            input@.len() > 0 ==> words@ =~= input_words(input@).take(index as int),
            input@.len() == 0 ==> words@ =~= seq![0u32],
        decreases input@.len() - index,
    {
        words.push(input[index].0);
        index += 1;
    }
    assert(words@ =~= input_words(input@));
    native_bytes(&words)
}

/// The texture that is bound for a draw: all layers of a backend's, or a small
/// one that stands in where there is nothing to read.
#[derive(Debug, Clone, Copy, PartialEq, Eq, Structural)]
pub enum AtlasViewChoice {
    Backend(u8),
    StandIn,
}

/// What the GPU needs to be told for one draw: where it draws, what is bound,
/// which pipelines have to be built first, and the contents of the buffers.
#[derive(Debug, PartialEq, Eq)]
pub struct BrushDrawPlan {
    pub target: AtlasResolvedAddress,
    pub source_view: AtlasViewChoice,
    pub source_sample_type: TextureSampleType,
    pub cache_view: AtlasViewChoice,
    pub cache_sample_type: TextureSampleType,
    pub pipeline: BrushGpuPipelineSpec,
    pub build_alpha: bool,
    pub build_replace: bool,
    pub blend_mode: DrawBlendMode,
    pub params: BrushShaderParams,
}

/// What the GPU needs to be told for a draw whose tiles have been found.
pub open spec fn draw_plan(
    context: BrushContext,
    draw_op: DrawOp,
    target: AtlasResolvedAddress,
    source: AtlasResolvedAddress,
    cache: Option<AtlasResolvedAddress>,
    source_sample_type: TextureSampleType,
    cache_sample_type: TextureSampleType,
) -> BrushDrawPlan {
    BrushDrawPlan {
        target,
        source_view: match draw_op.ref_image {
            Some(image) => AtlasViewChoice::Backend(image.tile_key.backend),
            None => AtlasViewChoice::StandIn,
        },
        source_sample_type,
        cache_view: match context.cache_backend_id {
            Some(backend_id) => if cache is Some {
                AtlasViewChoice::Backend(backend_id)
            } else {
                AtlasViewChoice::StandIn
            },
            None => AtlasViewChoice::StandIn,
        },
        cache_sample_type,
        pipeline: context.pipeline,
        build_alpha: !context.alpha_built,
        build_replace: !context.replace_built,
        blend_mode: draw_op.blend_mode,
        params: BrushShaderParams {
            input_len: (draw_op.input@.len() % 0x1_0000_0000) as u32,
            tile_origin_x: target.address.texel_offset.0,
            tile_origin_y: target.address.texel_offset.1,
            tile_layer: target.address.layer,
            tile_size_x: ATLAS_TILE_SIZE,
            tile_size_y: ATLAS_TILE_SIZE,
            src_tile_origin_x: source.address.texel_offset.0,
            src_tile_origin_y: source.address.texel_offset.1,
            src_tile_layer: source.address.layer,
            cache_tile_origin_x: match cache {
                Some(resolved) => resolved.address.texel_offset.0,
                None => 0,
            },
            cache_tile_origin_y: match cache {
                Some(resolved) => resolved.address.texel_offset.1,
                None => 0,
            },
            cache_tile_layer: match cache {
                Some(resolved) => resolved.address.layer,
                None => 0,
            },
            has_cache_tile: if cache is Some {
                1
            } else {
                0
            },
            pad1: 0,
            pad2: 0,
        },
    }
}

/// The tile that a draw reads from: that of the image it refers to, or else the
/// one it draws on.
pub open spec fn source_tile(draw_op: DrawOp) -> TileKey {
    match draw_op.ref_image {
        Some(image) => image.tile_key,
        None => draw_op.tile_key,
    }
}

/// The draw that is asked for. It needs a configured brush, the backends of its
/// target, of its source and of the brush's cache, one format for target and
/// source, and formats that a brush can read. The tile under the drawn one is read where it has one.
pub open spec fn planned_draw(
    brushes: Map<u64, BrushContext>,
    backends: Seq<BackendBinding>,
    features: GpuFeatures,
    draw_op: DrawOp,
) -> Result<BrushDrawPlan, WgpuBrushExecutorError> {
    let brush_id = draw_op.brush_id;
    if brush_id.0 > usize::MAX {
        Err(WgpuBrushExecutorError::BrushIdOutOfRange { brush_id })
    } else if !brushes.contains_key(brush_id.0) {
        Err(WgpuBrushExecutorError::BrushNotConfigured { brush_id })
    } else {
        let context = brushes[brush_id.0];
        match crate::gpu_runtime::atlas_runtime::location(backends, draw_op.tile_key) {
            None => Err(WgpuBrushExecutorError::MissingTargetAtlasBackend { brush_id }),
            Some(target) => match crate::gpu_runtime::atlas_runtime::location(
                backends,
                source_tile(draw_op),
            ) {
                None => Err(
                    WgpuBrushExecutorError::MissingSourceBackend {
                        brush_id,
                        backend_id: source_tile(draw_op).backend,
                    },
                ),
                Some(source) => if source.format != target.format {
                    Err(
                        WgpuBrushExecutorError::InconsistentSourceFormat {
                            brush_id,
                            expected: target.format,
                            actual: source.format,
                        },
                    )
                } else if context.cache_backend_id is Some && context.cache_backend_id->0
                    >= backends.len() {
                    Err(
                        WgpuBrushExecutorError::MissingCacheBackend {
                            brush_id,
                            backend_id: context.cache_backend_id->0,
                        },
                    )
                } else {
                    let cache = if draw_op.origin_tile == TileKey::nothing() {
                        None
                    } else {
                        crate::gpu_runtime::atlas_runtime::location(backends, draw_op.origin_tile)
                    };
                    let cache_format = match context.cache_backend_id {
                        Some(backend_id) => backends[backend_id as int].format,
                        None => TextureFormat::Rgba8Unorm,
                    };
                    match (
                        atlas_sample_type(brush_id, "source", source.format, features),
                        atlas_sample_type(brush_id, "cache", cache_format, features),
                    ) {
                        (Err(error), _) => Err(error),
                        (Ok(_), Err(error)) => Err(error),
                        (Ok(source_sample_type), Ok(cache_sample_type)) => Ok(
                            draw_plan(
                                context,
                                draw_op,
                                target,
                                source,
                                cache,
                                source_sample_type,
                                cache_sample_type,
                            ),
                        ),
                    }
                },
            },
        }
    }
}

/// The configured brushes.
#[derive(Debug)]
pub struct WgpuBrushExecutor {
    brushes: Vec<Option<BrushContext>>,
}

/// The brushes with a context, by their ids.
pub open spec fn configured(brushes: Seq<Option<BrushContext>>) -> Map<u64, BrushContext> {
    Map::new(
        |id: u64| id < brushes.len() && brushes[id as int] is Some,
        |id: u64| brushes[id as int]->0,
    )
}

impl View for WgpuBrushExecutor {
    type V = Map<u64, BrushContext>;

    closed spec fn view(&self) -> Map<u64, BrushContext> {
        configured(self.brushes@)
    }
}

impl Default for WgpuBrushExecutor {
    fn default() -> (executor: Self)
        ensures
            executor@ == Map::<u64, BrushContext>::empty(),
    {
        let executor = WgpuBrushExecutor { brushes: Vec::new() };
        assert(executor@ =~= Map::<u64, BrushContext>::empty());
        executor
    }
}

impl WgpuBrushExecutor {
    pub fn new() -> (executor: Self)
        ensures
            executor@ == Map::<u64, BrushContext>::empty(),
    {
        WgpuBrushExecutor::default()
    }

    /// The place of a brush, where the platform has one for its id.
    fn brush_index(brush_id: BrushId) -> (index: Result<usize, WgpuBrushExecutorError>)
        ensures
            index == (if brush_id.0 > usize::MAX {
                Err::<usize, WgpuBrushExecutorError>(
                    WgpuBrushExecutorError::BrushIdOutOfRange { brush_id },
                )
            } else {
                Ok(brush_id.0 as usize)
            }),
    {
        if brush_id.0 > usize::MAX as u64 {
            return Err(WgpuBrushExecutorError::BrushIdOutOfRange { brush_id });
        }
        Ok(brush_id.0 as usize)
    }

    /// Configures a brush, anew if it was configured before: its pipelines have
    /// to be built.
    pub fn configure_brush(
        &mut self,
        brush_id: BrushId,
        pipeline: BrushGpuPipelineSpec,
        cache_backend_id: Option<u8>,
    ) -> (result: Result<(), WgpuBrushExecutorError>)
        requires
            brush_id.0 != usize::MAX,
        ensures
            brush_id.0 > usize::MAX ==> result == Err::<(), WgpuBrushExecutorError>(
                WgpuBrushExecutorError::BrushIdOutOfRange { brush_id },
            ) && final(self)@ == old(self)@,
            brush_id.0 < usize::MAX ==> result == Ok::<(), WgpuBrushExecutorError>(()),
            brush_id.0 < usize::MAX ==> final(self)@ == old(self)@.insert(
                brush_id.0,
                BrushContext {
                    pipeline,
                    cache_backend_id,
                    alpha_built: false,
                    replace_built: false,
                },
            ),
    {
        let brush_index: usize = match WgpuBrushExecutor::brush_index(brush_id) {
            Ok(index) => index,
            Err(error) => {
                return Err(error);
            },
        };
        while self.brushes.len() <= brush_index
            invariant
                brush_index < usize::MAX,
                self@ =~= old(self)@,
            decreases brush_index + 1 - self.brushes@.len(),
        {
            self.brushes.push(None);
        }
        let ghost before = self.brushes@;
        self.brushes.set(
            brush_index,
            Some(
                BrushContext {
                    pipeline,
                    cache_backend_id,
                    alpha_built: false,
                    replace_built: false,
                },
            ),
        );
        assert(self@ =~= old(self)@.insert(
            brush_id.0,
            BrushContext { pipeline, cache_backend_id, alpha_built: false, replace_built: false },
        ));
        Ok(())
    }

    /// The context of a brush, if it is configured.
    fn context(&self, brush_index: usize) -> (context: Option<BrushContext>)
        ensures
            context == (if self@.contains_key(brush_index as u64) {
                Some(self@[brush_index as u64])
            } else {
                None
            }),
    {
        if brush_index < self.brushes.len() {
            self.brushes[brush_index]
        } else {
            None
        }
    }

    /// Notes that a pipeline of a configured brush is built.
    pub fn note_pipeline_built(&mut self, brush_id: BrushId, blend_mode: DrawBlendMode)
        requires
            old(self)@.contains_key(brush_id.0),
        ensures
            final(self)@ == old(self)@.insert(
                brush_id.0,
                match blend_mode {
                    DrawBlendMode::Alpha => BrushContext {
                        alpha_built: true,
                        ..old(self)@[brush_id.0]
                    },
                    DrawBlendMode::Replace => BrushContext {
                        replace_built: true,
                        ..old(self)@[brush_id.0]
                    },
                },
            ),
    {
        assert(brush_id.0 < self.brushes.len());
        let index: usize = brush_id.0 as usize;
        if let Some(present) = self.brushes[index] {
            let mut context = present;
            match blend_mode {
                DrawBlendMode::Alpha => {
                    context.alpha_built = true;
                },
                DrawBlendMode::Replace => {
                    context.replace_built = true;
                },
            }
            self.brushes.set(index, Some(context));
            assert(self@ =~= old(self)@.insert(brush_id.0, context));
        }
    }

    /// What the GPU needs to be told for one draw.
    pub fn encode_draw(
        &self,
        atlas_storage: &AtlasStorageRuntime,
        draw_op: &DrawOp,
        device_features: GpuFeatures,
    ) -> (plan: Result<BrushDrawPlan, WgpuBrushExecutorError>)
        requires
            atlas_storage.inv(),
        ensures
            plan == planned_draw(self@, atlas_storage@, device_features, *draw_op),
    {
        let brush_id = draw_op.brush_id;
        let brush_index: usize = match WgpuBrushExecutor::brush_index(brush_id) {
            Ok(index) => index,
            Err(error) => {
                return Err(error);
            },
        };
        let context = match self.context(brush_index) {
            Some(context) => context,
            None => {
                return Err(WgpuBrushExecutorError::BrushNotConfigured { brush_id });
            },
        };
        let target = match atlas_storage.resolve(draw_op.tile_key) {
            Some(resolved) => resolved,
            None => {
                return Err(WgpuBrushExecutorError::MissingTargetAtlasBackend { brush_id });
            },
        };
        let source_tile_key = match draw_op.ref_image {
            Some(image) => image.tile_key,
            None => draw_op.tile_key,
        };
        let source = match atlas_storage.resolve(source_tile_key) {
            Some(resolved) => resolved,
            None => {
                return Err(
                    WgpuBrushExecutorError::MissingSourceBackend {
                        brush_id,
                        backend_id: source_tile_key.backend_index(),
                    },
                );
            },
        };
        if source.format != target.format {
            return Err(
                WgpuBrushExecutorError::InconsistentSourceFormat {
                    brush_id,
                    expected: target.format,
                    actual: source.format,
                },
            );
        }
        let cache_format = match context.cache_backend_id {
            Some(backend_id) => match atlas_storage.backend_resource(backend_id) {
                Some(resource) => resource.format,
                None => {
                    return Err(WgpuBrushExecutorError::MissingCacheBackend { brush_id, backend_id });
                },
            },
            None => TextureFormat::Rgba8Unorm,
        };
        let source_sample_type = match texture_sample_type_for_atlas(
            brush_id,
            "source",
            source.format,
            device_features,
        ) {
            Ok(sample_type) => sample_type,
            Err(error) => {
                return Err(error);
            },
        };
        let cache_sample_type = match texture_sample_type_for_atlas(
            brush_id,
            "cache",
            cache_format,
            device_features,
        ) {
            Ok(sample_type) => sample_type,
            Err(error) => {
                return Err(error);
            },
        };
        let cache = if draw_op.origin_tile == TileKey::empty() {
            None
        } else {
            atlas_storage.resolve(draw_op.origin_tile)
        };
        let source_view = match draw_op.ref_image {
            Some(image) => AtlasViewChoice::Backend(image.tile_key.backend_index()),
            None => AtlasViewChoice::StandIn,
        };
        let cache_view = match (context.cache_backend_id, cache) {
            (Some(backend_id), Some(_)) => AtlasViewChoice::Backend(backend_id),
            _ => AtlasViewChoice::StandIn,
        };
        let (cache_x, cache_y, cache_layer, has_cache): (u32, u32, u32, u32) = match cache {
            Some(resolved) => (
                resolved.address.texel_offset.0,
                resolved.address.texel_offset.1,
                resolved.address.layer,
                1,
            ),
            None => (0, 0, 0, 0),
        };
        Ok(
            BrushDrawPlan {
                target,
                source_view,
                source_sample_type,
                cache_view,
                cache_sample_type,
                pipeline: context.pipeline,
                build_alpha: !context.alpha_built,
                build_replace: !context.replace_built,
                blend_mode: draw_op.blend_mode,
                params: BrushShaderParams {
                    input_len: (draw_op.input.len() as u64 % 0x1_0000_0000) as u32,
                    tile_origin_x: target.address.texel_offset.0,
                    tile_origin_y: target.address.texel_offset.1,
                    tile_layer: target.address.layer,
                    tile_size_x: ATLAS_TILE_SIZE,
                    tile_size_y: ATLAS_TILE_SIZE,
                    src_tile_origin_x: source.address.texel_offset.0,
                    src_tile_origin_y: source.address.texel_offset.1,
                    src_tile_layer: source.address.layer,
                    cache_tile_origin_x: cache_x,
                    cache_tile_origin_y: cache_y,
                    cache_tile_layer: cache_layer,
                    has_cache_tile: has_cache,
                    pad1: 0,
                    pad2: 0,
                },
            },
        )
    }
}

/// A draw never binds for reading the texture that it draws on, unless it refers
/// to an image there or the brush keeps its cache there.
pub proof fn lemma_target_is_not_read(
    brushes: Map<u64, BrushContext>,
    backends: Seq<BackendBinding>,
    features: GpuFeatures,
    draw_op: DrawOp,
)
    requires
        planned_draw(brushes, backends, features, draw_op) is Ok,
        draw_op.ref_image matches Some(image) ==> image.tile_key.backend
            != draw_op.tile_key.backend,
        brushes[draw_op.brush_id.0].cache_backend_id != Some(draw_op.tile_key.backend),
    ensures
        ({
            let plan = planned_draw(brushes, backends, features, draw_op)->Ok_0;
            let drawn = AtlasViewChoice::Backend(plan.target.backend_id);
            plan.source_view != drawn && plan.cache_view != drawn
        }),
{
}

/// The pipelines of a brush are built once: after both are noted, a draw with it
/// asks for neither, until it is configured anew.
pub proof fn lemma_pipelines_are_built_once(
    brushes: Map<u64, BrushContext>,
    backends: Seq<BackendBinding>,
    features: GpuFeatures,
    draw_op: DrawOp,
)
    requires
        planned_draw(brushes, backends, features, draw_op) is Ok,
        brushes[draw_op.brush_id.0].alpha_built,
        brushes[draw_op.brush_id.0].replace_built,
    ensures
        !(planned_draw(brushes, backends, features, draw_op)->Ok_0).build_alpha,
        !(planned_draw(brushes, backends, features, draw_op)->Ok_0).build_replace,
{
}

} // verus!
