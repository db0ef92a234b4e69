use glaphica::atlas::AtlasLayout;
use glaphica::gpu_runtime::atlas_runtime::TextureFormat;
use glaphica::images::image::{BackendId, Image};
use glaphica::images::layout::ImageLayout;
use glaphica::images::stored_image::StoredImage;
use glaphica::render_protocol::BlendMode;
use glaphica::renderer::texture_io::{
    build_atlas_image_readback_request, compose_stored_image_from_atlas_readbacks,
    unpad_readback, validate_rgba8_buffer, validate_texture_extent, AtlasImageReadbackRequest,
    AtlasTileReadbackRequest, RendererTexture, RendererTextureDescriptor, TextureIoError,
    TextureReadback,
};
use glaphica::renderer::tile_image_export::{
    extract_tile_readbacks_from_readbacks, tile_copy_height, tile_copy_width,
    TileImageExportRequest, TileImageExportTile,
};
use glaphica::renderer::tile_renderer::{
    brush_format_request, brush_of_command, check_command, plan_batch, plan_formats,
    ApplyDabCommand, BatchStep, BrushShaderSpec, BrushShaderStage, CompositeTileCommand,
    CopyTileCommand, FormatRequest, MergeTileCommand, PresentTileCommand, PresentTileParams,
    PresentUniforms, RenderCommand, TileCompositeSource, TileRendererError,
};
use glaphica::scalar::FloatBits;
use glaphica::tiles::{TileKey, ATLAS_TILE_SIZE, GUTTER_SIZE, IMAGE_TILE_SIZE};

fn bits(value: f32) -> FloatBits {
    FloatBits(value.to_bits())
}

fn tiny_layout() -> AtlasLayout {
    AtlasLayout::new(16, 1)
}

fn write_test_pixel(pixels: &mut [u8], width: u32, x: u32, y: u32, rgba: [u8; 4]) {
    let offset = ((y * width + x) * 4) as usize;
    pixels[offset..offset + 4].copy_from_slice(&rgba);
}

fn two_layers() -> Vec<TextureReadback> {
    let atlas_width = ATLAS_TILE_SIZE * 2;
    let atlas_height = ATLAS_TILE_SIZE;
    let mut first_layer = vec![0; (atlas_width * atlas_height * 4) as usize];
    let mut second_layer = vec![0; (atlas_width * atlas_height * 4) as usize];
    write_test_pixel(
        &mut first_layer,
        atlas_width,
        GUTTER_SIZE,
        GUTTER_SIZE,
        [1, 2, 3, 4],
    );
    write_test_pixel(
        &mut second_layer,
        atlas_width,
        GUTTER_SIZE,
        GUTTER_SIZE,
        [9, 8, 7, 6],
    );
    vec![
        TextureReadback {
            width: atlas_width,
            height: atlas_height,
            layer: 0,
            pixels_rgba8: first_layer,
        },
        TextureReadback {
            width: atlas_width,
            height: atlas_height,
            layer: 1,
            pixels_rgba8: second_layer,
        },
    ]
}

#[test]
fn rgba8_descriptor_uses_expected_defaults() {
    let descriptor = RendererTextureDescriptor::atlas_rgba8_unorm(64, 32, 7);
    assert_eq!(descriptor.format, TextureFormat::Rgba8Unorm);
    assert_eq!(descriptor.layers, 7);
    assert!(descriptor.usage.copy_dst);
    assert!(descriptor.usage.copy_src);
    assert!(descriptor.usage.texture_binding);
    assert!(descriptor.usage.render_attachment);
}

#[test]
fn texture_io_atlas_readback_request_converts_tile_keys_into_offsets() {
    let layout = ImageLayout::new(IMAGE_TILE_SIZE * 2, IMAGE_TILE_SIZE);
    let mut image = Image::new(layout, BackendId::new(0)).expect("image should build");
    image
        .set_tile_key(0, TileKey::from_parts(0, 0, 0))
        .expect("first tile should replace");
    image
        .set_tile_key(1, TileKey::from_parts(0, 0, 1))
        .expect("second tile should replace");

    let request = build_atlas_image_readback_request(tiny_layout(), &image)
        .expect("request should build");

    assert_eq!(request.image_width, IMAGE_TILE_SIZE * 2);
    assert_eq!(request.image_height, IMAGE_TILE_SIZE);
    assert_eq!(request.tile_requests.len(), 2);
    assert_eq!(
        request.tile_requests[0],
        AtlasTileReadbackRequest {
            atlas_layer: 0,
            atlas_origin_x: GUTTER_SIZE,
            atlas_origin_y: GUTTER_SIZE,
            destination_tile_index: 0,
        }
    );
    assert_eq!(
        request.tile_requests[1],
        AtlasTileReadbackRequest {
            atlas_layer: 0,
            atlas_origin_x: ATLAS_TILE_SIZE + GUTTER_SIZE,
            atlas_origin_y: GUTTER_SIZE,
            destination_tile_index: 1,
        }
    );
}

#[test]
fn readback_request_names_the_slot_that_the_atlas_lacks() {
    let layout = ImageLayout::new(IMAGE_TILE_SIZE, IMAGE_TILE_SIZE);
    let mut image = Image::new(layout, BackendId::new(0)).unwrap();
    image
        .set_tile_key(0, TileKey::from_parts(0, 0, 256))
        .unwrap();
    let error = build_atlas_image_readback_request(tiny_layout(), &image).unwrap_err();
    assert_eq!(
        error,
        TextureIoError::AtlasSlotOutOfBounds {
            slot_index: 256,
            total_slots: 256
        }
    );
    assert_eq!(
        error.message(),
        "atlas slot 256 is out of bounds for layout with 256 slots"
    );
}

#[test]
fn compose_stored_image_places_tiles_at_destination_offsets() {
    let request = AtlasImageReadbackRequest {
        image_width: IMAGE_TILE_SIZE + 1,
        image_height: IMAGE_TILE_SIZE,
        tile_requests: vec![
            AtlasTileReadbackRequest {
                atlas_layer: 0,
                atlas_origin_x: GUTTER_SIZE,
                atlas_origin_y: GUTTER_SIZE,
                destination_tile_index: 0,
            },
            AtlasTileReadbackRequest {
                atlas_layer: 1,
                atlas_origin_x: GUTTER_SIZE,
                atlas_origin_y: GUTTER_SIZE,
                destination_tile_index: 1,
            },
        ],
    };

    let composed = compose_stored_image_from_atlas_readbacks(&request, &two_layers())
        .expect("stored image should compose");

    assert_eq!(&composed.pixels_rgba8()[..4], &[1, 2, 3, 4]);
    let edge_offset = (IMAGE_TILE_SIZE as usize) * 4;
    assert_eq!(
        &composed.pixels_rgba8()[edge_offset..edge_offset + 4],
        &[9, 8, 7, 6]
    );

    let mut one_layer = two_layers();
    one_layer.truncate(1);
    let error = compose_stored_image_from_atlas_readbacks(&request, &one_layer).unwrap_err();
    assert_eq!(
        error,
        TextureIoError::AtlasLayerReadbackMissing {
            layer: 1,
            available_layers: 1
        }
    );
    assert_eq!(
        error.message(),
        "atlas layer 1 is unavailable in readback set with 1 layers"
    );
}

#[test]
fn plan_atlas_readback_request_converts_tile_keys_into_offsets() {
    let image_tiles = vec![
        (0usize, TileKey::from_parts(0, 0, 0)),
        (1usize, TileKey::from_parts(0, 0, 1)),
    ];

    let request = TileImageExportRequest::from_image_tiles(
        tiny_layout(),
        IMAGE_TILE_SIZE * 2,
        IMAGE_TILE_SIZE,
        &image_tiles,
    )
    .expect("request should build");

    assert_eq!(request.image_width, IMAGE_TILE_SIZE * 2);
    assert_eq!(request.image_height, IMAGE_TILE_SIZE);
    assert_eq!(request.tiles.len(), 2);
    assert_eq!(
        request.tiles[0],
        TileImageExportTile {
            atlas_layer: 0,
            atlas_tile_x: 0,
            atlas_tile_y: 0,
            image_tile_index: 0,
        }
    );
    assert_eq!(
        request.tiles[1],
        TileImageExportTile {
            atlas_layer: 0,
            atlas_tile_x: 1,
            atlas_tile_y: 0,
            image_tile_index: 1,
        }
    );
}

#[test]
fn columns_of_a_tile_do_not_depend_on_its_row() {
    let request = TileImageExportRequest {
        image_width: IMAGE_TILE_SIZE + 1,
        image_height: IMAGE_TILE_SIZE,
        tiles: vec![],
    };
    assert_eq!(tile_copy_width(&request, 0), IMAGE_TILE_SIZE as usize);
    assert_eq!(tile_copy_width(&request, 1), 1);
    assert_eq!(tile_copy_width(&request, usize::MAX), 1);
    assert_eq!(tile_copy_height(&request, 2), 0);
}

#[test]
fn extract_tile_readbacks_returns_raw_tile_pixels() {
    let request = TileImageExportRequest {
        image_width: IMAGE_TILE_SIZE + 1,
        image_height: IMAGE_TILE_SIZE,
        tiles: vec![
            TileImageExportTile {
                atlas_layer: 0,
                atlas_tile_x: 0,
                atlas_tile_y: 0,
                image_tile_index: 0,
            },
            TileImageExportTile {
                atlas_layer: 1,
                atlas_tile_x: 0,
                atlas_tile_y: 0,
                image_tile_index: 1,
            },
        ],
    };

    let tiles = extract_tile_readbacks_from_readbacks(&request, &two_layers())
        .expect("tile readbacks should extract");

    assert_eq!(tiles.len(), 2);
    assert_eq!(tiles[0].image_tile_index, 0);
    assert_eq!(&tiles[0].pixels_rgba8[..4], &[1, 2, 3, 4]);
    assert_eq!(tiles[1].image_tile_index, 1);
    assert_eq!(&tiles[1].pixels_rgba8[..4], &[9, 8, 7, 6]);
    assert!(tiles[1].pixels_rgba8[4..].iter().all(|value| *value == 0));
}

#[test]
fn textures_are_checked_before_they_are_used() {
    assert_eq!(
        validate_texture_extent(0, 3),
        Err(TextureIoError::InvalidExtent { width: 0, height: 3 })
    );
    assert_eq!(
        validate_rgba8_buffer(15, 2, 2),
        Err(TextureIoError::PixelBufferLengthMismatch {
            expected: 16,
            actual: 15
        })
    );
    assert_eq!(
        validate_rgba8_buffer(0, u32::MAX, u32::MAX),
        Err(TextureIoError::InvalidExtent {
            width: u32::MAX,
            height: u32::MAX
        })
    );
    let descriptor = RendererTextureDescriptor::atlas_rgba8_unorm(2, 2, 0);
    assert_eq!(
        RendererTexture::new(&descriptor),
        Err(TextureIoError::InvalidLayerCount(0))
    );
    let texture =
        RendererTexture::new(&RendererTextureDescriptor::atlas_rgba8_unorm(2, 2, 3)).unwrap();
    assert_eq!(texture.validate_upload(16, 2, 2, 2), Ok(()));
    assert_eq!(
        texture.validate_upload(16, 2, 2, 3),
        Err(TextureIoError::LayerOutOfBounds { layer: 3, layers: 3 })
    );
    let mismatch = texture.validate_upload(16, 4, 1, 0).unwrap_err();
    assert_eq!(
        mismatch,
        TextureIoError::ExtentMismatch {
            expected_width: 2,
            expected_height: 2,
            actual_width: 4,
            actual_height: 1
        }
    );
    assert_eq!(
        mismatch.message(),
        "texture extent mismatch: expected 2x2, got 4x1"
    );
    let other = RendererTexture {
        format: TextureFormat::R8Unorm,
        ..texture
    };
    let unsupported = other.validate_upload(16, 2, 2, 0).unwrap_err();
    assert_eq!(
        unsupported,
        TextureIoError::UnsupportedTextureFormat(TextureFormat::R8Unorm)
    );
    assert_eq!(
        unsupported.message(),
        "unsupported texture format for RGBA8 IO: R8Unorm"
    );
    assert_eq!(other.plan_readback(0), Err(unsupported));
    assert_eq!(
        TextureIoError::InvalidExtent { width: 1, height: 20 }.message(),
        "invalid texture extent 1x20"
    );
    assert_eq!(
        TextureIoError::InvalidLayerCount(0).message(),
        "invalid texture layer count 0"
    );
    assert_eq!(
        TextureIoError::LayerOutOfBounds { layer: 3, layers: 3 }.message(),
        "texture layer 3 is out of bounds for 3 layers"
    );
    assert_eq!(
        TextureIoError::PixelBufferLengthMismatch {
            expected: 16,
            actual: 15
        }
        .message(),
        "pixel buffer length mismatch: expected 16 bytes, got 15"
    );
    assert_eq!(
        TextureIoError::AtlasReadbackExtentMismatch {
            expected_width: 1,
            expected_height: 2,
            actual_width: 3,
            actual_height: 4
        }
        .message(),
        "atlas readback extent mismatch: expected 1x2, got 3x4"
    );
}

#[test]
fn readback_rows_are_padded_and_unpadded() {
    let texture =
        RendererTexture::new(&RendererTextureDescriptor::atlas_rgba8_unorm(3, 2, 1)).unwrap();
    let plan = texture.plan_readback(0).unwrap();
    assert_eq!(plan.bytes_per_row, 12);
    assert_eq!(plan.padded_bytes_per_row, 256);
    assert_eq!(plan.buffer_size, 512);
    let mut mapped = vec![0u8; 512];
    for byte in 0..12 {
        mapped[byte] = byte as u8;
        mapped[256 + byte] = 100 + byte as u8;
    }
    let readback = unpad_readback(texture, 0, plan, &mapped);
    let expected: Vec<u8> = (0..12).chain(100..112).collect();
    assert_eq!(readback.pixels_rgba8, expected);
    assert_eq!((readback.width, readback.height, readback.layer), (3, 2, 0));
}

#[test]
fn composite_source_keeps_opacity_and_blend_mode() {
    let source = TileCompositeSource {
        tile_key: TileKey::empty(),
        opacity: bits(0.5),
        blend_mode: BlendMode::Multiply,
    };
    assert_eq!(source.opacity, bits(0.5));
    assert_eq!(source.blend_mode, BlendMode::Multiply);
}

#[test]
fn present_params_store_logical_tile_rect() {
    let params = PresentTileParams {
        target_min_px: [bits(10.0), bits(20.0)],
        target_max_px: [bits(40.0), bits(50.0)],
        source_width: 32,
        source_height: 16,
    };
    assert_eq!(params.source_width, 32);
    assert_eq!(params.target_max_px, [bits(40.0), bits(50.0)]);
}

#[test]
fn present_uniform_source_size_matches_wgsl_offsets() {
    let uniform = PresentUniforms {
        dst_min_ndc: [bits(0.0), bits(0.0)],
        dst_max_ndc: [bits(1.0), bits(1.0)],
        source_origin: [11, 13],
        source_layer: 17,
        pad0: 0,
        source_size: [62, 31],
        padding: [0; 6],
    };
    let bytes = uniform.bytes();
    let source_width = match <[u8; 4]>::try_from(&bytes[32..36]) {
        Ok(bytes) => u32::from_ne_bytes(bytes),
        Err(_) => panic!("present uniform width slice size mismatch"),
    };
    let source_height = match <[u8; 4]>::try_from(&bytes[36..40]) {
        Ok(bytes) => u32::from_ne_bytes(bytes),
        Err(_) => panic!("present uniform height slice size mismatch"),
    };
    assert_eq!(source_width, 62);
    assert_eq!(source_height, 31);
    assert_eq!(bytes.len(), 64);
}

#[test]
fn commands_need_brushes_and_targets() {
    let tile = TileKey::from_parts(2, 0, 5);
    let copy = RenderCommand::CopyTile(CopyTileCommand {
        source_tile_key: tile,
        destination_tile_key: tile,
    });
    let dab = RenderCommand::ApplyDab(ApplyDabCommand {
        brush_id: 4,
        destination_tile_key: tile,
    });
    let merge = RenderCommand::MergeTile(MergeTileCommand {
        brush_id: 5,
        intermediate_tile_key: tile,
    });
    let composite = RenderCommand::CompositeTile(CompositeTileCommand {
        target_tile_key: tile,
        inputs: vec![],
    });
    let present = RenderCommand::PresentTile(PresentTileCommand {
        source_tile_key: tile,
        params: PresentTileParams {
            target_min_px: [bits(0.0); 2],
            target_max_px: [bits(1.0); 2],
            source_width: 1,
            source_height: 1,
        },
    });
    assert_eq!(check_command(&copy, false, false), Ok(()));
    assert_eq!(check_command(&composite, false, false), Ok(()));
    assert_eq!(
        check_command(&dab, false, true),
        Err(TileRendererError::UnsupportedCommand("ApplyDab"))
    );
    assert_eq!(
        check_command(&merge, false, true),
        Err(TileRendererError::UnsupportedCommand("MergeTile"))
    );
    assert_eq!(check_command(&dab, true, false), Ok(()));
    assert_eq!(
        check_command(&present, true, false),
        Err(TileRendererError::MissingPresentTarget)
    );
    assert_eq!(check_command(&present, false, true), Ok(()));
    assert_eq!(brush_of_command(&dab), Some((4, tile)));
    assert_eq!(brush_of_command(&merge), Some((5, tile)));
    assert_eq!(brush_of_command(&copy), None);

    let batch = vec![copy.clone(), dab.clone(), present.clone()];
    let plan = plan_batch(1, &batch, true, true);
    assert_eq!(
        plan.steps,
        vec![
            BatchStep::EnsureBackend { backend_index: 0 },
            BatchStep::ApplyClearBatches,
            BatchStep::EncodeCommand { command_index: 0 },
            BatchStep::EncodeCommand { command_index: 1 },
            BatchStep::EncodeCommand { command_index: 2 },
            BatchStep::Submit,
        ]
    );
    assert_eq!(plan.fault, None);
    let plan = plan_batch(0, &batch, false, true);
    assert_eq!(
        plan.steps,
        vec![
            BatchStep::ApplyClearBatches,
            BatchStep::EncodeCommand { command_index: 0 },
        ]
    );
    assert_eq!(
        plan.fault,
        Some(TileRendererError::UnsupportedCommand("ApplyDab"))
    );
    let plan = plan_batch(0, &[], false, false);
    assert_eq!(plan.steps, vec![BatchStep::ApplyClearBatches]);
    assert_eq!(plan.fault, None);

    let shader = BrushShaderSpec {
        intermediate_format: TextureFormat::Rgba16Float,
    };
    assert_eq!(
        brush_format_request(4, tile, None, &vec![Some(2)]),
        Err(TileRendererError::MissingBrushShader {
            brush_id: 4,
            stage: BrushShaderStage::ApplyDab
        })
    );
    assert_eq!(
        brush_format_request(4, tile, Some(shader), &vec![None, Some(0), Some(2), Some(2)]),
        Ok(Some(FormatRequest {
            backend_index: 2,
            format: TextureFormat::Rgba16Float
        }))
    );
    assert_eq!(
        brush_format_request(4, tile, Some(shader), &vec![Some(0)]),
        Ok(None)
    );
    let plan = plan_formats(
        &[copy, dab, merge.clone(), merge],
        &vec![None, Some(shader), None, Some(shader)],
        &vec![Some(2)],
    );
    assert_eq!(
        plan.requests,
        vec![FormatRequest {
            backend_index: 0,
            format: TextureFormat::Rgba16Float
        }]
    );
    assert_eq!(
        plan.fault,
        Some(TileRendererError::MissingBrushShader {
            brush_id: 5,
            stage: BrushShaderStage::ApplyDab
        })
    );
}

#[test]
fn an_image_comes_back_from_the_atlas_as_it_was_stored() {
    let (width, height) = (IMAGE_TILE_SIZE + 3, 2);
    let pixels = (0..width * height * 4).map(|byte| (byte % 251) as u8).collect();
    let stored = StoredImage::new_rgba8(width, height, pixels).unwrap();
    let mut image = Image::new(stored.layout(), BackendId::new(0)).unwrap();
    let atlas_layout = AtlasLayout::new(2, 1);
    let atlas_width = 2 * ATLAS_TILE_SIZE;
    let mut layer = vec![0u8; (atlas_width * atlas_width * 4) as usize];
    for (tile_index, slot) in [(0usize, 3u32), (1, 0)] {
        image
            .set_tile_key(tile_index, TileKey::from_parts(0, 0, slot))
            .unwrap();
        let mut tile = Vec::new();
        stored.copy_tile_rgba8(tile_index, &mut tile).unwrap();
        for (at, pixel) in tile.chunks(4).enumerate() {
            let x = (slot % 2) * ATLAS_TILE_SIZE + GUTTER_SIZE + at as u32 % IMAGE_TILE_SIZE;
            let y = (slot / 2) * ATLAS_TILE_SIZE + GUTTER_SIZE + at as u32 / IMAGE_TILE_SIZE;
            write_test_pixel(
                &mut layer,
                atlas_width,
                x,
                y,
                [pixel[0], pixel[1], pixel[2], pixel[3]],
            );
        }
    }
    let request = build_atlas_image_readback_request(atlas_layout, &image).unwrap();
    let readback = TextureReadback {
        width: atlas_width,
        height: atlas_width,
        layer: 0,
        pixels_rgba8: layer,
    };
    let exported = compose_stored_image_from_atlas_readbacks(&request, &vec![readback]).unwrap();
    assert_eq!(exported, stored);
}
