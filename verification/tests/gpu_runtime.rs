use glaphica::atlas::AtlasLayout;
use glaphica::gpu_runtime::atlas_runtime::{
    build_address, texture_bytes_per_pixel, AtlasBackendResource, AtlasStorageRuntime,
    AtlasStorageRuntimeRegisterError, AtlasTextureConfig, AtlasTexturePlan, BackendKind,
    TextureFormat, TextureUsage,
};
use glaphica::gpu_runtime::brush_executor::{
    check_sample_type, encode_input_bytes, encode_shader_params_bytes,
    texture_sample_type_for_atlas,
    AtlasViewChoice, BrushGpuPipelineSpec, BrushShaderParams, TextureSampleType,
    WgpuBrushExecutor, WgpuBrushExecutorError, FLOAT32_FILTERABLE,
};
use glaphica::gpu_runtime::brush_runtime::{
    BrushDrawExecutor, BrushDrawInputLayout, BrushDrawInputShape, BrushDrawKind,
    BrushGpuApplyOutcome, BrushGpuDispatchError, BrushGpuRuntime, BrushLayoutRegistry,
    BrushRegistryError,
};
use glaphica::gpu_runtime::commands::{
    BrushId, CanvasVec2, ClearOp, CompositeOp, CopyOp, DrawBlendMode, DrawOp, GpuCmdMsg,
    LeafBlendMode, MaterializeParametricCmd, NodeConfig, NodeTile, ParametricMesh,
    ParametricVertex, RefImage, RenderCmd, RenderSource, WriteBlendMode, WriteOp,
};
use glaphica::gpu_runtime::context::{
    check_requirements, judge_requirements, GpuContextInitError, GpuFeatures,
};
use glaphica::gpu_runtime::dirty::{ImageDirtyTracker, TileDirtyTracker};
use glaphica::gpu_runtime::frame_batch::{
    FrameBatch, FrameBatchError, FrameBatchPerfStats, GpuWork,
};
use glaphica::gpu_runtime::generic_executor::{
    draw_square, sample_ref_image_pixel, GenericBrushExecutor, GenericBrushExecutorError,
    GenericBrushTarget,
};
use glaphica::gpu_runtime::render_executor::{
    CompositeParams, RenderExecutor, TileCopy, WritePass,
};
use glaphica::gpu_runtime::render_passes::{
    RenderExecutorError, RenderParams, RenderPassKey, RenderPipelineKind,
};
use glaphica::gpu_runtime::surface_runtime::{SurfaceError, SurfaceRuntime};
use glaphica::images::image_id::NodeId;
use glaphica::scalar::FloatBits;
use glaphica::tiles::{TileKey, ATLAS_TILE_SIZE};

const NO_FEATURES: GpuFeatures = GpuFeatures { native: 0, web: 0 };

fn bits(value: f32) -> FloatBits {
    FloatBits(value.to_bits())
}

fn small_layout() -> AtlasLayout {
    AtlasLayout::new(32, 2)
}

fn medium_layout() -> AtlasLayout {
    AtlasLayout::new(64, 4)
}

fn word_at(bytes: &[u8], offset: usize) -> u32 {
    u32::from_ne_bytes([
        bytes[offset],
        bytes[offset + 1],
        bytes[offset + 2],
        bytes[offset + 3],
    ])
}

/// Two backends: leaves, and caches of another format.
fn two_backends() -> AtlasStorageRuntime {
    let mut storage = AtlasStorageRuntime::with_capacity(2);
    let leaf = storage.create_backend(
        0,
        BackendKind::Leaf,
        small_layout(),
        AtlasTextureConfig::default(),
    );
    assert!(leaf.is_ok());
    let cache = storage.create_backend(
        1,
        BackendKind::BranchCache,
        small_layout(),
        AtlasTextureConfig {
            format: TextureFormat::Rgba16Float,
            ..AtlasTextureConfig::default()
        },
    );
    assert!(cache.is_ok());
    storage
}

fn draw_on(tile_key: TileKey, brush_id: u64, input: &[f32]) -> DrawOp {
    DrawOp {
        node_id: NodeId(0),
        tile_index: 0,
        tile_key,
        blend_mode: DrawBlendMode::Alpha,
        origin_tile: TileKey::empty(),
        ref_image: None,
        input: input.iter().map(|value| bits(*value)).collect(),
        brush_id: BrushId(brush_id),
    }
}

fn write_to(src_slot: u32, dst: TileKey) -> WriteOp {
    WriteOp {
        src_tile_key: TileKey::from_parts(0, 0, src_slot),
        dst_tile_key: dst,
        blend_mode: WriteBlendMode::Normal,
        opacity: bits(1.0),
        rgb: None,
        origin_tile_key: None,
    }
}

fn test_pipeline_spec() -> BrushGpuPipelineSpec {
    BrushGpuPipelineSpec {
        label: "test-brush",
        wgsl_source: "@vertex fn vs_main() {}",
        vertex_entry: "vs_main",
        fragment_entry: "fs_main",
        uses_brush_cache_backend: false,
        cache_backend_format: None,
    }
}

fn test_layout() -> BrushDrawInputLayout {
    BrushDrawInputLayout::new(
        BrushDrawKind::PixelRect,
        &[BrushDrawInputShape::Vec2F32, BrushDrawInputShape::F32],
    )
}

#[test]
fn validate_backend_requires_contiguous_backend_ids() {
    let runtime = AtlasStorageRuntime::new();
    let err = runtime.validate_backend_id(1);
    assert_eq!(
        err,
        Err(AtlasStorageRuntimeRegisterError::NonContiguousBackendId {
            expected: 0,
            provided: 1
        })
    );
    assert!(runtime.validate_backend_id(0).is_ok());
}

#[test]
fn build_address_even_parity_slot() {
    let tiles_per_edge = small_layout().tiles_per_edge();
    let x = 3u32;
    let y = 7u32;
    let layer_in_even_group = 0u32;
    let tile_in_layer = y * tiles_per_edge + x;
    let index_within_parity =
        layer_in_even_group * (tiles_per_edge * tiles_per_edge) + tile_in_layer;
    let slot = index_within_parity;

    let address = build_address(small_layout(), slot);

    assert_eq!(address.layer, 0);
    assert_eq!(address.tile_offset, (x, y));
    assert_eq!(
        address.texel_offset,
        (x * ATLAS_TILE_SIZE, y * ATLAS_TILE_SIZE)
    );
}

#[test]
fn build_address_odd_parity_slot() {
    let tiles_per_edge = small_layout().tiles_per_edge();
    let x = 3u32;
    let y = 7u32;
    let layer_in_odd_group = 0u32;
    let tile_in_layer = y * tiles_per_edge + x;
    let index_within_parity =
        layer_in_odd_group * (tiles_per_edge * tiles_per_edge) + tile_in_layer;
    let slot = (1u32 << 31) | index_within_parity;

    let address = build_address(small_layout(), slot);

    assert_eq!(address.layer, 1);
    assert_eq!(address.tile_offset, (x, y));
    assert_eq!(
        address.texel_offset,
        (x * ATLAS_TILE_SIZE, y * ATLAS_TILE_SIZE)
    );
}

#[test]
fn build_address_even_parity_second_layer() {
    let tiles_per_edge = medium_layout().tiles_per_edge();
    let tiles_per_layer = tiles_per_edge * tiles_per_edge;
    let x = 5u32;
    let y = 10u32;
    let layer_in_even_group = 1u32;
    let tile_in_layer = y * tiles_per_edge + x;
    let index_within_parity = layer_in_even_group * tiles_per_layer + tile_in_layer;
    let slot = index_within_parity;

    let address = build_address(medium_layout(), slot);

    assert_eq!(address.layer, 2);
    assert_eq!(address.tile_offset, (x, y));
}

#[test]
fn resolve_returns_none_for_missing_backend() {
    let runtime = AtlasStorageRuntime::new();
    let key = TileKey::from_parts(0, 0, 0);
    assert!(runtime.resolve(key).is_none());
}

#[test]
fn created_backend_has_the_usual_uses_unless_others_are_asked_for() {
    let mut runtime = AtlasStorageRuntime::default();
    assert_eq!(
        runtime.create_backend(
            0,
            BackendKind::BranchCache,
            small_layout(),
            AtlasTextureConfig::default()
        ),
        Ok(AtlasTexturePlan {
            edge_size: 4096,
            layers: 2,
            format: TextureFormat::Rgba8Unorm,
            usage: TextureUsage {
                texture_binding: true,
                render_attachment: true,
                ..TextureUsage::empty()
            },
            mip_level_count: 1,
            sample_count: 1,
        })
    );
    let asked = TextureUsage {
        copy_src: true,
        ..TextureUsage::empty()
    };
    let plan = runtime.create_backend(
        1,
        BackendKind::Leaf,
        medium_layout(),
        AtlasTextureConfig {
            usage: asked,
            ..AtlasTextureConfig::default()
        },
    );
    assert_eq!(plan.map(|plan| (plan.edge_size, plan.usage)), Ok((8192, asked)));
    assert!(TextureUsage::default_usage_for_kind(BackendKind::Leaf).storage_binding);
    assert_eq!(
        runtime.create_backend(
            7,
            BackendKind::Leaf,
            small_layout(),
            AtlasTextureConfig::default()
        ),
        Err(AtlasStorageRuntimeRegisterError::NonContiguousBackendId {
            expected: 2,
            provided: 7
        })
    );
    assert_eq!(
        runtime.backend_resource(1),
        Some(AtlasBackendResource {
            format: TextureFormat::Rgba8Unorm,
            layers: 4,
            kind: BackendKind::Leaf,
        })
    );
    assert_eq!(runtime.backend_resource(2), None);
}

#[test]
fn backends_run_out_of_ids() {
    let mut runtime = AtlasStorageRuntime::new();
    for id in 0..=255u8 {
        assert!(runtime
            .create_backend(
                id,
                BackendKind::Leaf,
                small_layout(),
                AtlasTextureConfig::default()
            )
            .is_ok());
    }
    assert_eq!(
        runtime.validate_backend_id(0),
        Err(AtlasStorageRuntimeRegisterError::BackendLimitReached)
    );
}

#[test]
fn slots_of_one_backend_do_not_overlap() {
    let layout = AtlasLayout::new(3, 4);
    let slots: Vec<u32> = (0..20).chain((0..20).map(|slot| slot | 1 << 31)).collect();
    for first in &slots {
        for second in &slots {
            let a = build_address(layout, *first);
            let b = build_address(layout, *second);
            assert_eq!(
                (a.layer, a.texel_offset) == (b.layer, b.texel_offset),
                first == second
            );
        }
    }
}

#[test]
fn pixels_take_the_bytes_of_their_format() {
    assert_eq!(texture_bytes_per_pixel(TextureFormat::R8Unorm), 1);
    assert_eq!(texture_bytes_per_pixel(TextureFormat::Rg8Unorm), 2);
    assert_eq!(texture_bytes_per_pixel(TextureFormat::Bgra8Unorm), 4);
    assert_eq!(texture_bytes_per_pixel(TextureFormat::Rgba16Float), 8);
    assert_eq!(texture_bytes_per_pixel(TextureFormat::R32Float), 4);
}

#[derive(Default)]
struct TestContext {
    input: Vec<FloatBits>,
}

struct TestExecutor;

impl BrushDrawExecutor<TestContext> for TestExecutor {
    type PipelineError = &'static str;

    fn execute_draw(
        &mut self,
        context: &mut TestContext,
        draw_op: &DrawOp,
        _layout: BrushDrawInputLayout,
    ) -> Result<(), &'static str> {
        context.input.clear();
        context.input.extend_from_slice(&draw_op.input);
        if draw_op.input[0] == FloatBits(13.0f32.to_bits()) {
            return Err("unlucky");
        }
        Ok(())
    }
}

#[test]
fn apply_draw_op_uses_registered_layout_and_executor() {
    let mut runtime = BrushGpuRuntime::new(TestExecutor);
    let mut layouts = BrushLayoutRegistry::new(4);
    assert!(layouts.register_layout(BrushId(2), test_layout()).is_ok());

    let draw_op = draw_on(TileKey::from_parts(0, 0, 0), 2, &[1.0, 2.0, 3.0]);
    let mut context = TestContext::default();
    let apply = runtime.apply_draw_op(&mut context, &draw_op, &layouts);
    assert!(apply.is_ok());
    assert_eq!(context.input, vec![bits(1.0), bits(2.0), bits(3.0)]);
}

#[test]
fn apply_draw_op_rejects_input_layout_mismatch() {
    let mut runtime = BrushGpuRuntime::new(TestExecutor);
    let mut layouts = BrushLayoutRegistry::new(4);
    assert!(layouts.register_layout(BrushId(1), test_layout()).is_ok());

    let draw_op = draw_on(TileKey::from_parts(0, 0, 0), 1, &[1.0, 2.0]);
    let mut context = TestContext::default();
    let apply = runtime.apply_draw_op(&mut context, &draw_op, &layouts);
    assert!(matches!(
        apply,
        Err(BrushGpuDispatchError::InputLayoutMismatch {
            brush_id: BrushId(1),
            input_len: 2,
            ..
        })
    ));
    assert!(context.input.is_empty());
}

#[test]
fn apply_gpu_cmd_ignores_non_draw_commands() {
    let mut runtime = BrushGpuRuntime::new(TestExecutor);
    let mut layouts = BrushLayoutRegistry::new(2);
    assert!(layouts.register_layout(BrushId(1), test_layout()).is_ok());
    let mut context = TestContext::default();
    let clear_cmd = GpuCmdMsg::ClearOp(ClearOp {
        tile_key: TileKey::from_parts(0, 0, 0),
    });
    let outcome = runtime.apply_gpu_cmd(&mut context, &clear_cmd, &layouts);
    assert!(matches!(outcome, Ok(BrushGpuApplyOutcome::IgnoredNonDraw)));
}

#[test]
fn draws_fail_with_the_registry_and_with_the_executor() {
    let mut runtime = BrushGpuRuntime::new(TestExecutor);
    let mut layouts = BrushLayoutRegistry::new(4);
    assert_eq!(
        layouts.register_layout(BrushId(4), test_layout()),
        Err(BrushRegistryError::BrushIdOutOfRange { brush_id: BrushId(4) })
    );
    assert!(layouts.register_layout(BrushId(1), test_layout()).is_ok());
    let mut context = TestContext::default();
    let unknown = GpuCmdMsg::DrawOp(draw_on(TileKey::from_parts(0, 0, 0), 3, &[1.0, 2.0, 3.0]));
    assert_eq!(
        runtime.apply_gpu_cmd(&mut context, &unknown, &layouts),
        Err(BrushGpuDispatchError::Registry(
            BrushRegistryError::LayoutNotRegistered { brush_id: BrushId(3) }
        ))
    );
    let failing = GpuCmdMsg::DrawOp(draw_on(TileKey::from_parts(0, 0, 0), 1, &[13.0, 2.0, 3.0]));
    assert_eq!(
        runtime.apply_gpu_cmd(&mut context, &failing, &layouts),
        Err(BrushGpuDispatchError::Executor {
            brush_id: BrushId(1),
            source: "unlucky"
        })
    );
    let good = GpuCmdMsg::DrawOp(draw_on(TileKey::from_parts(0, 0, 0), 1, &[1.0, 2.0, 3.0]));
    assert_eq!(
        runtime.apply_gpu_cmd(&mut context, &good, &layouts),
        Ok(BrushGpuApplyOutcome::AppliedDraw)
    );
    let _executor: &mut TestExecutor = runtime.executor_mut();
}

struct MaskTarget {
    width: u32,
    height: u32,
    pixels: Vec<u8>,
    writes: Vec<(u32, u32)>,
}

impl MaskTarget {
    fn new(width: u32, height: u32) -> Self {
        Self {
            width,
            height,
            pixels: vec![0; (width * height) as usize],
            writes: Vec::new(),
        }
    }

    fn is_set(&self, x: u32, y: u32) -> bool {
        self.pixels[(y * self.width + x) as usize] == 1
    }
}

impl GenericBrushTarget for MaskTarget {
    fn width(&self) -> u32 {
        self.width
    }

    fn height(&self) -> u32 {
        self.height
    }

    fn write_pixel(&mut self, x: u32, y: u32) {
        let index = (y * self.width + x) as usize;
        self.pixels[index] = 1;
        self.writes.push((x, y));
    }

    fn sample_ref_pixel(&self, tile_key: TileKey, x: u32, y: u32) -> Option<[FloatBits; 4]> {
        if tile_key == TileKey::from_parts(9, 9, 9) && x == 4 && y == 3 {
            return Some([bits(0.2), bits(0.3), bits(0.4), bits(0.5)]);
        }
        None
    }
}

#[test]
fn generic_executor_draws_pixel_rect_square() {
    let mut runtime = BrushGpuRuntime::new(GenericBrushExecutor);
    let mut layouts = BrushLayoutRegistry::new(4);
    let register = layouts.register_layout(BrushId(1), test_layout());
    assert!(register.is_ok());

    let draw_op = draw_on(TileKey::from_parts(0, 0, 0), 1, &[4.0, 3.0, 1.0]);
    let mut target = MaskTarget::new(9, 7);
    let apply = runtime.apply_draw_op(&mut target, &draw_op, &layouts);
    assert!(apply.is_ok());

    for y in 0..7 {
        for x in 0..9 {
            let expected = (3..=5).contains(&x) && (2..=4).contains(&y);
            assert_eq!(target.is_set(x, y), expected);
        }
    }
    assert_eq!(
        target.writes,
        vec![(3, 2), (4, 2), (5, 2), (3, 3), (4, 3), (5, 3), (3, 4), (4, 4), (5, 4)]
    );
}

#[test]
fn sample_ref_image_pixel_reads_from_ref_tile_key_when_present() {
    let target = MaskTarget::new(2, 2);
    let mut draw_op = draw_on(TileKey::from_parts(1, 1, 1), 1, &[0.0, 0.0, 0.0]);
    draw_op.ref_image = Some(RefImage {
        tile_key: TileKey::from_parts(9, 9, 9),
    });
    let sampled = sample_ref_image_pixel(&target, &draw_op, 4, 3);
    assert_eq!(sampled, Some([bits(0.2), bits(0.3), bits(0.4), bits(0.5)]));
    draw_op.ref_image = None;
    assert_eq!(sample_ref_image_pixel(&target, &draw_op, 4, 3), None);
}

#[test]
fn squares_are_clipped_to_the_target() {
    let mut target = MaskTarget::new(4, 4);
    draw_square(&mut target, -1, 5, 2);
    for y in 0..4 {
        for x in 0..4 {
            assert_eq!(target.is_set(x, y), x <= 1 && y == 3);
        }
    }
    assert_eq!(target.writes, vec![(0, 3), (1, 3)]);
    let mut untouched = MaskTarget::new(4, 4);
    draw_square(&mut untouched, 10, 0, 3);
    draw_square(&mut untouched, i64::MAX, i64::MIN, i64::MAX);
    assert!(untouched.pixels.iter().all(|pixel| *pixel == 0));
    let mut empty = MaskTarget::new(0, 3);
    draw_square(&mut empty, 0, 0, 5);
    assert!(empty.pixels.is_empty());
}

#[test]
fn pixel_rect_needs_three_numbers() {
    let mut executor = GenericBrushExecutor::default();
    let mut target = MaskTarget::new(2, 2);
    let draw_op = draw_on(TileKey::from_parts(0, 0, 0), 1, &[0.0]);
    assert_eq!(
        executor.execute_draw(&mut target, &draw_op, test_layout()),
        Err(GenericBrushExecutorError::PixelRectDecode { input_len: 1 })
    );

    let mut runtime = BrushGpuRuntime::new(executor);
    let mut layouts = BrushLayoutRegistry::new(4);
    let layout = BrushDrawInputLayout {
        float_count: 1,
        ..test_layout()
    };
    assert!(layouts.register_layout(BrushId(1), layout).is_ok());
    assert_eq!(
        runtime.apply_gpu_cmd(&mut target, &GpuCmdMsg::DrawOp(draw_op), &layouts),
        Err(BrushGpuDispatchError::Executor {
            brush_id: BrushId(1),
            source: GenericBrushExecutorError::PixelRectDecode { input_len: 1 },
        })
    );
    assert!(target.pixels.iter().all(|pixel| *pixel == 0));
}

#[test]
fn numbers_compare_like_the_machine_compares_them() {
    let samples = [
        0.0f32,
        -0.0,
        1.0,
        -1.0,
        f32::MIN_POSITIVE,
        f32::INFINITY,
        f32::NEG_INFINITY,
        f32::NAN,
        -f32::NAN,
    ];
    for left in samples {
        for right in samples {
            assert_eq!(bits(left) == bits(right), left == right);
        }
    }
    let at = |x: f32| CanvasVec2 {
        x: bits(x),
        y: bits(2.0),
    };
    assert_eq!(at(0.0), at(-0.0));
    assert_ne!(at(f32::NAN), at(f32::NAN));
}

#[test]
fn numbers_round_like_the_machine_rounds_them() {
    let samples = [
        0.0f32,
        -0.0,
        0.25,
        0.49999997,
        0.5,
        -0.5,
        0.75,
        1.5,
        2.5,
        -2.5,
        -3.49,
        1000.5,
        8388607.5,
        8388608.0,
        16777216.0,
        1.0e10,
        -1.0e10,
        9.0e18,
        9.223372e18,
        -9.223372e18,
        9.3e18,
        -1.0e30,
        f32::MAX,
        f32::MIN_POSITIVE,
        1.0e-40,
        f32::INFINITY,
        f32::NEG_INFINITY,
        f32::NAN,
    ];
    for sample in samples {
        assert_eq!(bits(sample).round_to_i64(), sample.round() as i64, "{sample}");
    }
}

#[test]
fn encode_input_bytes_keeps_empty_input_buffer_non_zero_sized() {
    let encoded = encode_input_bytes(&Vec::new());
    assert_eq!(encoded.len(), 4);
    assert_eq!(encoded, vec![0, 0, 0, 0]);
    let encoded = encode_input_bytes(&vec![bits(1.5), bits(-2.0)]);
    assert_eq!(encoded.len(), 8);
    assert_eq!(f32::from_bits(word_at(&encoded, 0)), 1.5);
    assert_eq!(f32::from_bits(word_at(&encoded, 4)), -2.0);
}

#[test]
fn encode_shader_params_bytes_matches_fixed_layout() {
    let params = BrushShaderParams {
        input_len: 3,
        tile_origin_x: 64,
        tile_origin_y: 128,
        tile_layer: 2,
        tile_size_x: 64,
        tile_size_y: 64,
        src_tile_origin_x: 256,
        src_tile_origin_y: 512,
        src_tile_layer: 9,
        cache_tile_origin_x: 300,
        cache_tile_origin_y: 400,
        cache_tile_layer: 10,
        has_cache_tile: 1,
        pad1: 0,
        pad2: 0,
    };
    let encoded = encode_shader_params_bytes(params);
    assert_eq!(encoded.len(), 60);
    assert_eq!(
        u32::from_ne_bytes([encoded[0], encoded[1], encoded[2], encoded[3]]),
        3
    );
    assert_eq!(
        u32::from_ne_bytes([encoded[12], encoded[13], encoded[14], encoded[15]]),
        2
    );
    assert_eq!(
        u32::from_ne_bytes([encoded[40], encoded[41], encoded[42], encoded[43]]),
        400
    );
}

#[test]
fn draw_is_planned_from_configured_brush_and_tiles() {
    let storage = two_backends();
    let mut executor = WgpuBrushExecutor::new();
    let mut draw_op = draw_on(TileKey::from_parts(0, 0, 33), 5, &[1.0, 2.0]);
    assert_eq!(
        executor.encode_draw(&storage, &draw_op, NO_FEATURES),
        Err(WgpuBrushExecutorError::BrushNotConfigured { brush_id: BrushId(5) })
    );
    assert!(executor
        .configure_brush(BrushId(5), test_pipeline_spec(), Some(1))
        .is_ok());
    let plan = executor.encode_draw(&storage, &draw_op, NO_FEATURES).unwrap();
    assert_eq!(plan.target.address.texel_offset, (128, 128));
    assert_eq!(plan.source_view, AtlasViewChoice::StandIn);
    assert_eq!(plan.cache_view, AtlasViewChoice::StandIn);
    assert_eq!(plan.cache_sample_type, TextureSampleType::Float { filterable: true });
    assert!(plan.build_alpha && plan.build_replace);
    assert_eq!(plan.params.input_len, 2);
    assert_eq!(plan.params.has_cache_tile, 0);
    assert_eq!(plan.params.tile_size_x, 128);

    executor.note_pipeline_built(BrushId(5), DrawBlendMode::Alpha);
    draw_op.origin_tile = TileKey::from_parts(1, 0, 2);
    draw_op.ref_image = Some(RefImage {
        tile_key: TileKey::from_parts(0, 0, 1 << 31),
    });
    let plan = executor.encode_draw(&storage, &draw_op, NO_FEATURES).unwrap();
    assert!(!plan.build_alpha && plan.build_replace);
    assert_eq!(plan.source_view, AtlasViewChoice::Backend(0));
    assert_eq!(plan.cache_view, AtlasViewChoice::Backend(1));
    assert_eq!(plan.params.src_tile_layer, 1);
    assert_eq!(plan.params.cache_tile_origin_x, 256);
    assert_eq!(plan.params.has_cache_tile, 1);

    executor.note_pipeline_built(BrushId(5), DrawBlendMode::Replace);
    let plan = executor.encode_draw(&storage, &draw_op, NO_FEATURES).unwrap();
    assert!(!plan.build_alpha && !plan.build_replace);
    assert!(executor
        .configure_brush(BrushId(5), test_pipeline_spec(), None)
        .is_ok());
    let plan = executor.encode_draw(&storage, &draw_op, NO_FEATURES).unwrap();
    assert!(plan.build_alpha && plan.build_replace);
    assert_eq!(plan.cache_view, AtlasViewChoice::StandIn);
    assert_eq!(plan.source_sample_type, TextureSampleType::Float { filterable: true });
}

#[test]
fn draw_faults_name_what_is_missing() {
    let storage = two_backends();
    let mut executor = WgpuBrushExecutor::new();
    assert!(executor
        .configure_brush(BrushId(0), test_pipeline_spec(), Some(9))
        .is_ok());
    let lost = draw_on(TileKey::from_parts(4, 0, 0), 0, &[]);
    let error = executor.encode_draw(&storage, &lost, NO_FEATURES).unwrap_err();
    assert_eq!(
        error,
        WgpuBrushExecutorError::MissingTargetAtlasBackend { brush_id: BrushId(0) }
    );
    assert_eq!(
        error.message(),
        "atlas draw target backend is missing for brush 0"
    );

    let mut draw_op = draw_on(TileKey::from_parts(0, 0, 0), 0, &[]);
    draw_op.ref_image = Some(RefImage {
        tile_key: TileKey::from_parts(6, 0, 0),
    });
    let error = executor.encode_draw(&storage, &draw_op, NO_FEATURES).unwrap_err();
    assert_eq!(
        error,
        WgpuBrushExecutorError::MissingSourceBackend {
            brush_id: BrushId(0),
            backend_id: 6
        }
    );
    assert_eq!(error.message(), "source backend 6 is missing for brush 0");

    draw_op.ref_image = Some(RefImage {
        tile_key: TileKey::from_parts(1, 0, 0),
    });
    let error = executor.encode_draw(&storage, &draw_op, NO_FEATURES).unwrap_err();
    assert_eq!(
        error,
        WgpuBrushExecutorError::InconsistentSourceFormat {
            brush_id: BrushId(0),
            expected: TextureFormat::Rgba8Unorm,
            actual: TextureFormat::Rgba16Float,
        }
    );
    assert_eq!(
        error.message(),
        "source format mismatch for brush 0: expected Rgba8Unorm, got Rgba16Float"
    );

    draw_op.ref_image = None;
    let error = executor.encode_draw(&storage, &draw_op, NO_FEATURES).unwrap_err();
    assert_eq!(
        error,
        WgpuBrushExecutorError::MissingCacheBackend {
            brush_id: BrushId(0),
            backend_id: 9
        }
    );
    assert_eq!(error.message(), "cache backend 9 is missing for brush 0");
}

#[test]
fn depth_formats_are_not_sampled() {
    let refused = WgpuBrushExecutorError::UnsupportedAtlasSampleType {
        brush_id: BrushId(3),
        backend_role: "source",
        format: TextureFormat::R8Unorm,
    };
    for sample_type in [None, Some(TextureSampleType::Depth)] {
        assert_eq!(
            check_sample_type(
                BrushId(3),
                "source",
                TextureFormat::R8Unorm,
                sample_type
            ),
            Err(refused)
        );
    }
    assert_eq!(
        refused.message(),
        "source atlas format R8Unorm is unsupported for brush 3 sampling"
    );
    for sample_type in [
        TextureSampleType::Float { filterable: false },
        TextureSampleType::Sint,
        TextureSampleType::Uint,
    ] {
        assert_eq!(
            check_sample_type(
                BrushId(3),
                "cache",
                TextureFormat::R8Unorm,
                Some(sample_type)
            ),
            Ok(sample_type)
        );
    }
    assert_eq!(
        WgpuBrushExecutorError::PipelineCreationPanicked {
            brush_id: BrushId(7),
            label: "ink"
        }
        .message(),
        "wgpu pipeline creation panicked for brush 7 (label: ink)"
    );
    assert_eq!(
        WgpuBrushExecutorError::BrushIdOutOfRange { brush_id: BrushId(7) }.message(),
        "brush id 7 cannot be indexed on this platform"
    );
    assert_eq!(
        WgpuBrushExecutorError::BrushNotConfigured { brush_id: BrushId(7) }.message(),
        "brush 7 has not been configured"
    );
}

fn solid_source(tile_keys: Vec<TileKey>, blend_mode: LeafBlendMode) -> RenderSource {
    RenderSource {
        tile_keys,
        config: NodeConfig {
            opacity: bits(1.0),
            blend_mode,
        },
    }
}

#[test]
fn render_command_clears_targets_and_groups_them_by_layer() {
    let storage = two_backends();
    let mut executor = RenderExecutor::new();
    let first = TileKey::from_parts(1, 0, 0);
    let other_layer = TileKey::from_parts(1, 0, 1 << 31);
    let second = TileKey::from_parts(1, 0, 1);
    let undrawn = TileKey::from_parts(1, 0, 2);
    let leaf = TileKey::from_parts(0, 0, 5);
    let cmd = RenderCmd {
        from: vec![
            solid_source(
                vec![leaf, leaf, leaf, TileKey::empty(), leaf],
                LeafBlendMode::Normal,
            ),
            solid_source(vec![leaf], LeafBlendMode::Multiply),
        ],
        to: vec![first, other_layer, second, undrawn, TileKey::empty()],
    };
    let plans = executor.execute(&storage, &vec![cmd]).unwrap();
    assert_eq!(executor.pipeline_format(), Some(TextureFormat::Rgba16Float));
    assert_eq!(plans.len(), 1);
    let plan = &plans[0];
    let cleared: Vec<(u32, (u32, u32))> = plan
        .clears
        .iter()
        .map(|target| (target.address.layer, target.address.texel_offset))
        .collect();
    assert_eq!(
        cleared,
        vec![(0, (0, 0)), (1, (0, 0)), (0, (128, 0)), (0, (256, 0))]
    );
    assert_eq!(plan.passes.len(), 2);
    assert_eq!(
        plan.passes[0].key,
        RenderPassKey {
            backend_id: 1,
            layer: 0,
            format: TextureFormat::Rgba16Float
        }
    );
    assert_eq!(plan.passes[0].tiles.len(), 2);
    assert_eq!(plan.passes[0].tiles[0].sources.len(), 2);
    assert_eq!(
        plan.passes[0].tiles[0].sources[0].pipeline,
        RenderPipelineKind::ImageNormal
    );
    assert_eq!(
        plan.passes[0].tiles[0].sources[1].pipeline,
        RenderPipelineKind::ImageMultiply
    );
    assert_eq!(plan.passes[0].tiles[1].scissor_x, 128);
    assert_eq!(plan.passes[1].key.layer, 1);
    assert_eq!(plan.passes[1].tiles[0].sources[0].binding.params.src_x, 640);
}

#[test]
fn render_command_fails_with_the_first_missing_tile() {
    let storage = two_backends();
    let mut executor = RenderExecutor::new();
    let missing = TileKey::from_parts(8, 0, 0);
    let cmd = RenderCmd {
        from: vec![solid_source(vec![missing], LeafBlendMode::Normal)],
        to: vec![TileKey::from_parts(0, 0, 0), TileKey::from_parts(9, 0, 0)],
    };
    assert_eq!(
        executor.execute(&storage, &vec![cmd]),
        Err(RenderExecutorError::MissingTileBackend { tile_key: missing })
    );
    let no_sources = RenderCmd {
        from: vec![],
        to: vec![missing],
    };
    let plans = executor.execute(&storage, &vec![no_sources]).unwrap();
    assert!(plans[0].clears.is_empty() && plans[0].passes.is_empty());
    assert_eq!(executor.pipeline_format(), Some(TextureFormat::Rgba8Unorm));
}

#[test]
fn single_tile_commands_resolve_their_tiles() {
    let storage = two_backends();
    let mut executor = RenderExecutor::new();
    let leaf = TileKey::from_parts(0, 0, 1);
    let cache = TileKey::from_parts(1, 0, 2);
    let missing = TileKey::from_parts(3, 0, 0);

    let copy = executor.copy_tile(
        &storage,
        &CopyOp {
            src_tile_key: leaf,
            dst_tile_key: cache,
        },
    );
    assert_eq!(
        copy,
        Ok(TileCopy {
            source: storage.resolve(leaf).unwrap(),
            target: storage.resolve(cache).unwrap(),
        })
    );
    assert_eq!(executor.pipeline_format(), None);
    assert_eq!(
        executor.copy_tile(
            &storage,
            &CopyOp {
                src_tile_key: leaf,
                dst_tile_key: missing,
            },
        ),
        Err(RenderExecutorError::MissingTileBackend { tile_key: missing })
    );

    assert_eq!(
        executor.clear_tile(&storage, &ClearOp { tile_key: missing }),
        Err(RenderExecutorError::MissingTileBackend { tile_key: missing })
    );
    assert_eq!(executor.pipeline_format(), None);
    assert_eq!(
        executor.clear_tile(&storage, &ClearOp { tile_key: cache }),
        Ok(storage.resolve(cache).unwrap())
    );
    assert_eq!(executor.pipeline_format(), Some(TextureFormat::Rgba16Float));
    assert!(!executor.ensure_pipelines(TextureFormat::Rgba16Float));
    assert!(executor.ensure_pipelines(TextureFormat::Rgba8Unorm));

    let erase = WriteOp {
        blend_mode: WriteBlendMode::Erase,
        rgb: Some([bits(0.1), bits(0.2), bits(0.3)]),
        origin_tile_key: Some(TileKey::from_parts(0, 0, 3)),
        ..write_to(1, TileKey::from_parts(0, 0, 2))
    };
    let call = executor.write_tile(&storage, &erase).unwrap();
    assert_eq!(call.pipeline, RenderPipelineKind::WriteErase);
    assert_eq!(
        call.binding.params,
        RenderParams {
            src_layer: 0,
            src_x: 128,
            src_y: 0,
            origin_layer: 0,
            origin_x: 384,
            origin_y: 0,
            has_origin: 1,
            has_tint: 1,
            tint_r: bits(0.1),
            tint_g: bits(0.2),
            tint_b: bits(0.3),
            opacity: bits(1.0),
        }
    );
    let unknown_origin = WriteOp {
        origin_tile_key: Some(missing),
        ..write_to(1, TileKey::from_parts(0, 0, 2))
    };
    let call = executor.write_tile(&storage, &unknown_origin).unwrap();
    assert_eq!(call.pipeline, RenderPipelineKind::Normal);
    assert_eq!(call.binding.params.has_origin, 0);
    assert_eq!(call.binding.origin, call.binding.source);

    let composite = CompositeOp {
        base_tile_key: leaf,
        overlay_tile_key: cache,
        dst_tile_key: cache,
        blend_mode: WriteBlendMode::Erase,
        opacity: bits(0.5),
    };
    let call = executor
        .composite_tile_with_encoder(&storage, &composite)
        .unwrap();
    assert_eq!(call.pipeline, RenderPipelineKind::CompositeNormal);
    assert_eq!(call.params.overlay_x, 256);
    assert_eq!(
        executor.composite_tile_with_encoder(
            &storage,
            &CompositeOp {
                overlay_tile_key: missing,
                ..composite
            }
        ),
        Err(RenderExecutorError::MissingTileBackend { tile_key: missing })
    );
}

#[test]
fn uniform_buffers_hold_their_words_in_order() {
    let params = RenderParams {
        src_layer: 1,
        src_x: 2,
        src_y: 3,
        origin_layer: 4,
        origin_x: 5,
        origin_y: 6,
        has_origin: 7,
        has_tint: 8,
        tint_r: bits(0.5),
        tint_g: bits(0.25),
        tint_b: bits(0.125),
        opacity: bits(0.75),
    };
    let bytes = params.encode();
    assert_eq!(bytes.len(), 48);
    for place in 0..8 {
        assert_eq!(word_at(&bytes, 4 * place), place as u32 + 1);
    }
    assert_eq!(f32::from_bits(word_at(&bytes, 32)), 0.5);
    assert_eq!(f32::from_bits(word_at(&bytes, 44)), 0.75);

    let composite = CompositeParams {
        base_x: 10,
        base_y: 11,
        overlay_x: 12,
        overlay_y: 13,
        opacity: bits(0.5),
        pad0: bits(0.0),
        pad1: bits(0.0),
    };
    let bytes = composite.encode();
    assert_eq!(bytes.len(), 32);
    assert_eq!(word_at(&bytes, 12), 13);
    assert_eq!(f32::from_bits(word_at(&bytes, 16)), 0.5);
    assert_eq!(&bytes[20..], &[0u8; 12]);
}

#[test]
fn writes_are_drawn_in_passes_of_neighbors_in_order() {
    let storage = two_backends();
    let mut executor = RenderExecutor::new();
    let odd = 1u32 << 31;
    let writes = vec![
        write_to(1, TileKey::from_parts(0, 0, 4)),
        write_to(2, TileKey::from_parts(0, 0, 5)),
        write_to(3, TileKey::from_parts(0, 0, odd)),
        write_to(1, TileKey::from_parts(0, 0, 6)),
    ];
    let batch = executor.write_tiles_with_encoder(&storage, &writes).unwrap();
    assert_eq!(batch.calls.len(), 4);
    let even_key = batch.calls[0].pass_key;
    let odd_key = batch.calls[2].pass_key;
    assert_eq!(
        batch.passes,
        vec![
            WritePass { key: even_key, start: 0, end: 2 },
            WritePass { key: odd_key, start: 2, end: 3 },
            WritePass { key: even_key, start: 3, end: 4 },
        ]
    );
    let none = executor.write_tiles_with_encoder(&storage, &vec![]).unwrap();
    assert!(none.calls.is_empty() && none.passes.is_empty());
}

fn mesh_cmd(dst_tile_keys: Vec<TileKey>) -> MaterializeParametricCmd {
    let corner = CanvasVec2 {
        x: bits(0.0),
        y: bits(0.0),
    };
    MaterializeParametricCmd {
        mesh: ParametricMesh {
            vertices: vec![
                ParametricVertex {
                    position: corner,
                    color: [bits(1.0); 4],
                };
                3
            ],
            indices: vec![0, 1, 2],
        },
        tile_origins: vec![corner; dst_tile_keys.len()],
        tile_indices: (0..dst_tile_keys.len()).collect(),
        dst_tile_keys,
    }
}

#[test]
fn meshes_are_drawn_into_the_tiles_that_are_named() {
    let storage = two_backends();
    let mut executor = RenderExecutor::new();
    let mut cmd = mesh_cmd(vec![
        TileKey::from_parts(1, 0, 0),
        TileKey::empty(),
        TileKey::from_parts(1, 0, 1),
    ]);
    let mut plans = Vec::new();
    assert_eq!(
        executor.materialize_parametric_with_encoder(&mut plans, &storage, &vec![cmd.clone()]),
        Ok(())
    );
    assert_eq!(plans[0].tiles.len(), 2);
    assert_eq!(plans[0].index_count, 3);
    assert_eq!(executor.pipeline_format(), Some(TextureFormat::Rgba16Float));
    cmd.tile_indices.truncate(1);
    assert_eq!(
        executor.materialize_parametric_with_encoder(&mut plans, &storage, &vec![cmd.clone()]),
        Ok(())
    );
    assert_eq!(plans.len(), 2);
    assert_eq!(plans[1].tiles.len(), 1);
    cmd.mesh.indices.clear();
    assert_eq!(
        executor.materialize_parametric_with_encoder(&mut plans, &storage, &vec![cmd]),
        Ok(())
    );
    assert!(plans[2].tiles.is_empty());
}

#[test]
fn meshes_before_a_missing_tile_stay_drawn() {
    let storage = two_backends();
    let mut executor = RenderExecutor::new();
    let missing = TileKey::from_parts(5, 0, 0);
    let whole = mesh_cmd(vec![TileKey::from_parts(1, 0, 0)]);
    let broken = mesh_cmd(vec![
        TileKey::from_parts(1, 0, 1),
        missing,
        TileKey::from_parts(1, 0, 2),
    ]);
    let mut plans = Vec::new();
    assert_eq!(
        executor.materialize_parametric_with_encoder(
            &mut plans,
            &storage,
            &vec![whole.clone(), broken, whole]
        ),
        Err(RenderExecutorError::MissingTileBackend { tile_key: missing })
    );
    assert_eq!(plans.len(), 2);
    assert_eq!((plans[0].tiles.len(), plans[1].tiles.len()), (1, 1));
    assert_eq!(plans[1].tiles[0].target.address.texel_offset, (128, 0));
    assert_eq!(plans[1].index_count, 3);
}

#[test]
fn commands_before_a_missing_tile_stay_recorded() {
    let storage = two_backends();
    let mut executor = RenderExecutor::new();
    let tile = |slot: u32| TileKey::from_parts(0, 0, slot);
    let missing = TileKey::from_parts(8, 0, 0);
    let whole = RenderCmd {
        from: vec![solid_source(vec![tile(5)], LeafBlendMode::Normal)],
        to: vec![tile(0)],
    };
    let broken = RenderCmd {
        from: vec![solid_source(
            vec![tile(5), missing, tile(5)],
            LeafBlendMode::Normal,
        )],
        to: vec![tile(1), tile(2), tile(3)],
    };
    let mut plans = Vec::new();
    assert_eq!(
        executor.execute_with_encoder(&mut plans, &storage, &vec![whole, broken]),
        Err(RenderExecutorError::MissingTileBackend { tile_key: missing })
    );
    assert_eq!(plans.len(), 2);
    assert_eq!((plans[0].clears.len(), plans[0].passes.len()), (1, 1));
    let cleared: Vec<(u32, u32)> = plans[1]
        .clears
        .iter()
        .map(|target| target.address.texel_offset)
        .collect();
    assert_eq!(cleared, vec![(128, 0), (256, 0)]);
    assert!(plans[1].passes.is_empty());

    let lost_target = RenderCmd {
        from: vec![solid_source(vec![tile(5), tile(5)], LeafBlendMode::Normal)],
        to: vec![tile(4), missing],
    };
    assert_eq!(
        executor.execute_with_encoder(&mut plans, &storage, &vec![lost_target]),
        Err(RenderExecutorError::MissingTileBackend { tile_key: missing })
    );
    assert_eq!(plans.len(), 3);
    assert_eq!(plans[2].clears.len(), 1);
}

#[test]
fn frame_batch_marks_what_commands_change() {
    let storage = two_backends();
    let mut render_executor = RenderExecutor::new();
    let mut brushes = WgpuBrushExecutor::new();
    assert!(brushes
        .configure_brush(BrushId(1), test_pipeline_spec(), None)
        .is_ok());
    let mut layouts = BrushLayoutRegistry::new(2);
    assert!(layouts.register_layout(BrushId(1), test_layout()).is_ok());
    let mut images = ImageDirtyTracker::default();
    let mut tiles = TileDirtyTracker::default();
    let mut batch = FrameBatch::new();
    let features = NO_FEATURES;

    for quiet in [GpuCmdMsg::RenderTreeUpdated, GpuCmdMsg::TileSlotKeyUpdate] {
        let work = batch.push_command(
            &quiet,
            &storage,
            &mut render_executor,
            &brushes,
            &layouts,
            features,
        );
        assert_eq!(work, Ok(GpuWork::Nothing));
        batch.note_encoded(&quiet, &mut images, &mut tiles);
    }
    assert!(!batch.has_commands && tiles.is_empty());

    let tile = TileKey::from_parts(0, 0, 7);
    let draw = GpuCmdMsg::DrawOp(DrawOp {
        node_id: NodeId(4),
        tile_index: 9,
        ..draw_on(tile, 1, &[1.0, 2.0, 3.0])
    });
    let work = batch.push_command(
        &draw,
        &storage,
        &mut render_executor,
        &brushes,
        &layouts,
        features,
    );
    assert!(matches!(work, Ok(GpuWork::Draw(_))));
    batch.note_encoded(&draw, &mut images, &mut tiles);
    assert!(batch.has_commands);
    assert_eq!(
        images.iter(),
        vec![NodeTile {
            node_id: NodeId(4),
            tile_index: 9
        }]
    );
    assert_eq!(tiles.iter(), vec![tile]);

    let short = GpuCmdMsg::DrawOp(draw_on(tile, 1, &[1.0]));
    assert!(matches!(
        batch.push_command(
            &short,
            &storage,
            &mut render_executor,
            &brushes,
            &layouts,
            features,
        ),
        Err(FrameBatchError::BrushError(
            BrushGpuDispatchError::InputLayoutMismatch { input_len: 1, .. }
        ))
    ));
    assert!(batch
        .push_command_with_layout(
            &short,
            &storage,
            &mut render_executor,
            &brushes,
            &layouts,
            features,
            Some(test_layout()),
        )
        .is_ok());

    let clear = GpuCmdMsg::ClearOp(ClearOp {
        tile_key: TileKey::from_parts(1, 0, 0),
    });
    assert!(matches!(
        batch.push_command(
            &clear,
            &storage,
            &mut render_executor,
            &brushes,
            &layouts,
            features,
        ),
        Ok(GpuWork::Clear(_))
    ));
    assert_eq!(
        render_executor.pipeline_format(),
        Some(TextureFormat::Rgba16Float)
    );
    let lost = TileKey::from_parts(9, 0, 0);
    assert_eq!(
        batch.push_command(
            &GpuCmdMsg::CopyOp(CopyOp {
                src_tile_key: tile,
                dst_tile_key: lost
            }),
            &storage,
            &mut render_executor,
            &brushes,
            &layouts,
            features,
        ),
        Err(FrameBatchError::RenderError(
            RenderExecutorError::MissingTileBackend { tile_key: lost }
        ))
    );

    assert!(batch.finish(&mut images, &mut tiles));
    assert!(images.is_empty() && tiles.is_empty());
    assert!(!FrameBatch::new().submit_only());
}

#[test]
fn batches_of_draws_and_writes_are_marked_together() {
    let storage = two_backends();
    let mut render_executor = RenderExecutor::new();
    let mut images = ImageDirtyTracker::default();
    let mut tiles = TileDirtyTracker::default();
    let mut batch = FrameBatch::new();
    batch.push_draw_batch(&vec![], &mut images, &mut tiles);
    assert!(!batch.has_commands);
    batch.push_draw_batch(
        &vec![
            draw_on(TileKey::from_parts(0, 0, 1), 1, &[]),
            draw_on(TileKey::empty(), 1, &[]),
        ],
        &mut images,
        &mut tiles,
    );
    assert!(batch.has_commands);
    assert_eq!(images.iter().len(), 1);
    assert_eq!(tiles.iter(), vec![TileKey::from_parts(0, 0, 1)]);

    let mut other = FrameBatch::new();
    let missing = TileKey::from_parts(9, 0, 0);
    assert_eq!(
        other.push_write_batch(
            &vec![
                write_to(1, TileKey::from_parts(0, 0, 3)),
                write_to(1, missing)
            ],
            &storage,
            &mut render_executor,
            &mut tiles,
        ),
        Err(FrameBatchError::RenderError(
            RenderExecutorError::MissingTileBackend { tile_key: missing }
        ))
    );
    assert!(!other.has_commands);
    assert_eq!(tiles.iter().len(), 1);
    let written = other
        .push_write_batch(
            &vec![write_to(1, TileKey::from_parts(0, 0, 3))],
            &storage,
            &mut render_executor,
            &mut tiles,
        )
        .unwrap();
    assert_eq!(written.calls.len(), 1);
    assert!(other.has_commands);
    assert_eq!(tiles.iter().len(), 2);
}

#[test]
fn frame_is_rendered_only_when_an_image_is_marked() {
    let storage = two_backends();
    let mut render_executor = RenderExecutor::new();
    let mut images = ImageDirtyTracker::default();
    let mut tiles = TileDirtyTracker::default();
    let mut batch = FrameBatch::new();
    let meshes = vec![mesh_cmd(vec![TileKey::from_parts(0, 0, 4)])];
    let layers = vec![RenderCmd {
        from: vec![solid_source(
            vec![TileKey::from_parts(0, 0, 4)],
            LeafBlendMode::Normal,
        )],
        to: vec![TileKey::from_parts(1, 0, 0)],
    }];
    assert_eq!(
        batch.execute_render_commands(
            &images,
            &meshes,
            &layers,
            &storage,
            &mut render_executor,
            &mut tiles
        ),
        Ok(None)
    );
    images.mark(NodeId(1), 0);
    let rendering = batch
        .execute_render_commands(
            &images,
            &meshes,
            &layers,
            &storage,
            &mut render_executor,
            &mut tiles,
        )
        .unwrap()
        .unwrap();
    assert_eq!(
        rendering.stats,
        FrameBatchPerfStats {
            parametric_cmd_count: 1,
            parametric_dst_tile_count: 1,
            render_cmd_count: 1,
            render_dst_tile_count: 1,
            render_source_count: 1,
        }
    );
    assert_eq!(rendering.parametric_format, Some(TextureFormat::Rgba8Unorm));
    assert_eq!(rendering.render_format, Some(TextureFormat::Rgba16Float));
    assert_eq!(rendering.parametric[0].tiles.len(), 1);
    assert_eq!(rendering.render[0].passes.len(), 1);
    assert_eq!(tiles.iter(), vec![TileKey::from_parts(0, 0, 4)]);
    assert!(batch.has_commands);
    assert_eq!(FrameBatchPerfStats::default().render_cmd_count, 0);
}

#[test]
fn the_empty_key_is_never_dirty() {
    let mut tracker = TileDirtyTracker::default();
    tracker.mark(TileKey::empty());
    assert!(tracker.is_empty());
    tracker.mark_all(&vec![TileKey::from_parts(1, 2, 3), TileKey::empty()]);
    tracker.mark(TileKey::from_parts(1, 2, 3));
    assert_eq!(tracker.iter(), vec![TileKey::from_parts(1, 2, 3)]);
    tracker.clear();
    assert!(tracker.is_empty());
}

#[test]
fn surface_takes_the_first_drawable_format_and_real_sizes() {
    assert_eq!(
        SurfaceRuntime::new(&vec![TextureFormat::Rgba8UnormSrgb], 4, 4),
        Err(SurfaceError::UnsupportedFormat)
    );
    assert_eq!(
        SurfaceError::UnsupportedFormat.message(),
        "no supported surface format"
    );
    assert_eq!(
        SurfaceError::AcquireFailed.message(),
        "failed to acquire surface texture"
    );
    let formats = vec![
        TextureFormat::Bgra8UnormSrgb,
        TextureFormat::Rgba8Unorm,
        TextureFormat::Bgra8Unorm,
    ];
    let mut surface = SurfaceRuntime::new(&formats, 640, 480).unwrap();
    assert_eq!(surface.format(), TextureFormat::Rgba8Unorm);
    assert!(!surface.resize(0, 10));
    assert!(!surface.resize(640, 480));
    assert!(surface.resize(640, 481));
    assert_eq!((surface.width(), surface.height()), (640, 481));
}

#[test]
fn colour_formats_are_sampled_with_a_filter() {
    for format in [
        TextureFormat::R8Unorm,
        TextureFormat::Rgba8Unorm,
        TextureFormat::Rgba16Float,
    ] {
        assert_eq!(
            texture_sample_type_for_atlas(BrushId(1), "source", format, NO_FEATURES),
            Ok(TextureSampleType::Float { filterable: true })
        );
    }
}

#[test]
fn formats_are_sampled_as_the_device_can() {
    let sampled = |format: TextureFormat, web: u64| {
        texture_sample_type_for_atlas(
            BrushId(1),
            "source",
            format,
            GpuFeatures { native: u64::MAX, web },
        )
    };
    assert_eq!(
        sampled(TextureFormat::R32Float, u64::MAX & !FLOAT32_FILTERABLE),
        Ok(TextureSampleType::Float { filterable: false })
    );
    assert_eq!(
        sampled(TextureFormat::R32Float, FLOAT32_FILTERABLE),
        Ok(TextureSampleType::Float { filterable: true })
    );
    assert_eq!(
        sampled(TextureFormat::R8Uint, 0),
        Ok(TextureSampleType::Uint)
    );
    for format in [
        TextureFormat::Rg8Unorm,
        TextureFormat::Bgra8Unorm,
        TextureFormat::Rgba8UnormSrgb,
        TextureFormat::Bgra8UnormSrgb,
    ] {
        assert_eq!(
            sampled(format, 0),
            Ok(TextureSampleType::Float { filterable: true })
        );
    }
    assert_eq!(
        wgpu::Features::FLOAT32_FILTERABLE.features_webgpu.bits(),
        FLOAT32_FILTERABLE
    );
}

#[test]
fn brushes_do_not_read_depths() {
    let mut storage = two_backends();
    assert!(storage
        .create_backend(
            2,
            BackendKind::Leaf,
            small_layout(),
            AtlasTextureConfig {
                format: TextureFormat::Depth32Float,
                ..AtlasTextureConfig::default()
            },
        )
        .is_ok());
    let mut executor = WgpuBrushExecutor::new();
    assert!(executor
        .configure_brush(BrushId(4), test_pipeline_spec(), Some(2))
        .is_ok());
    let on_color = draw_on(TileKey::from_parts(0, 0, 0), 4, &[]);
    let error = executor
        .encode_draw(&storage, &on_color, NO_FEATURES)
        .unwrap_err();
    assert_eq!(
        error,
        WgpuBrushExecutorError::UnsupportedAtlasSampleType {
            brush_id: BrushId(4),
            backend_role: "cache",
            format: TextureFormat::Depth32Float,
        }
    );
    let on_depth = draw_on(TileKey::from_parts(2, 0, 0), 4, &[]);
    let error = executor
        .encode_draw(&storage, &on_depth, NO_FEATURES)
        .unwrap_err();
    assert_eq!(
        error.message(),
        "source atlas format Depth32Float is unsupported for brush 4 sampling"
    );
}

#[test]
fn a_gpu_is_turned_down_for_what_it_lacks() {
    let requested = GpuFeatures { native: 0b0110, web: 0b1 };
    let supported = GpuFeatures { native: 0b1110, web: 0b11 };
    let judge = |requested: GpuFeatures, supported: GpuFeatures, limits_allow: bool| {
        judge_requirements(
            requested,
            supported,
            wgpu::Limits::default(),
            wgpu::Limits::downlevel_defaults(),
            limits_allow,
        )
    };
    assert_eq!(judge(requested, supported, true), Ok(()));
    assert_eq!(
        judge(requested, supported, false),
        Err(GpuContextInitError::UnsupportedLimits {
            requested: wgpu::Limits::default(),
            supported: wgpu::Limits::downlevel_defaults(),
        })
    );
    assert_eq!(
        judge(supported, requested, false),
        Err(GpuContextInitError::UnsupportedFeatures {
            requested: supported,
            supported: requested,
        })
    );
    let web_only = GpuFeatures { native: 0, web: 0b100 };
    assert!(judge(web_only, supported, true).is_err());

    let limits = wgpu::Limits::default();
    let small = wgpu::Limits::downlevel_webgl2_defaults();
    let check = |requested: &wgpu::Limits, supported: &wgpu::Limits| {
        check_requirements(
            NO_FEATURES,
            NO_FEATURES,
            requested.clone(),
            supported.clone(),
        )
    };
    assert_eq!(check(&limits, &limits), Ok(()));
    assert_eq!(check(&small, &limits), Ok(()));
    assert_eq!(
        check(&limits, &small),
        Err(GpuContextInitError::UnsupportedLimits {
            requested: limits,
            supported: small,
        })
    );
}

#[test]
fn indices_of_a_mesh_become_bytes() {
    let mut cmd = mesh_cmd(vec![TileKey::from_parts(1, 0, 0)]);
    cmd.mesh.indices = vec![0x0102, 7];
    let bytes = cmd.mesh.index_bytes();
    assert_eq!(bytes.len(), 4);
    assert_eq!(u16::from_ne_bytes([bytes[0], bytes[1]]), 0x0102);
    assert_eq!(u16::from_ne_bytes([bytes[2], bytes[3]]), 7);
}
