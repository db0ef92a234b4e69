//! Checking what is written to and read from textures, and putting images
//! together from what was read.
use vstd::prelude::*;
use vstd::string::StringExecFns;

use crate::atlas::AtlasLayout;
use crate::blocks::{copy_block, zeroed, BlockOrigin};
use crate::gpu_runtime::atlas_runtime::{TextureFormat, TextureUsage};
use crate::images::image::Image;
use crate::images::layout::ImageLayout;
use crate::images::stored_image::{StoredImage, StoredImageModel};
use crate::model::div_ceil;
use crate::text::decimal;
use crate::tiles::{TileKey, ATLAS_TILE_SIZE, GUTTER_SIZE, IMAGE_TILE_SIZE};

verus! {

#[derive(Debug, Clone, Copy, PartialEq, Eq, Structural)]
pub enum TextureIoError {
    InvalidExtent { width: u32, height: u32 },
    InvalidLayerCount(u32),
    LayerOutOfBounds { layer: u32, layers: u32 },
    ExtentMismatch {
        expected_width: u32,
        expected_height: u32,
        actual_width: u32,
        actual_height: u32,
    },
    PixelBufferLengthMismatch { expected: usize, actual: usize },
    AtlasSlotOutOfBounds { slot_index: u32, total_slots: u32 },
    AtlasLayerReadbackMissing { layer: u32, available_layers: usize },
    AtlasReadbackExtentMismatch {
        expected_width: u32,
        expected_height: u32,
        actual_width: u32,
        actual_height: u32,
    },
    UnsupportedTextureFormat(TextureFormat),
}

/// Two extents, in words.
pub open spec fn extents_text(
    expected_width: u32,
    expected_height: u32,
    actual_width: u32,
    actual_height: u32,
) -> Seq<char> {
    " extent mismatch: expected "@ + crate::text::decimal_text(expected_width as nat) + "x"@
        + crate::text::decimal_text(expected_height as nat) + ", got "@
        + crate::text::decimal_text(actual_width as nat) + "x"@ + crate::text::decimal_text(
        actual_height as nat,
    )
}

fn extents_message(
    expected_width: u32,
    expected_height: u32,
    actual_width: u32,
    actual_height: u32,
) -> (message: String)
    ensures
        message@ == extents_text(expected_width, expected_height, actual_width, actual_height),
{
    " extent mismatch: expected ".to_owned().concat(decimal(expected_width as u64).as_str()).concat(
        "x",
    ).concat(decimal(expected_height as u64).as_str()).concat(", got ").concat(
        decimal(actual_width as u64).as_str(),
    ).concat("x").concat(decimal(actual_height as u64).as_str())
}

impl TextureIoError {
    /// The text of the message for an error.
    pub open spec fn text(&self) -> Seq<char> {
        match *self {
            TextureIoError::InvalidExtent { width, height } => "invalid texture extent "@
                + crate::text::decimal_text(width as nat) + "x"@ + crate::text::decimal_text(
                height as nat,
            ),
            TextureIoError::InvalidLayerCount(layers) => "invalid texture layer count "@
                + crate::text::decimal_text(layers as nat),
            TextureIoError::LayerOutOfBounds { layer, layers } => "texture layer "@
                + crate::text::decimal_text(layer as nat) + " is out of bounds for "@
                + crate::text::decimal_text(layers as nat) + " layers"@,
            TextureIoError::ExtentMismatch {
                expected_width,
                expected_height,
                actual_width,
                actual_height,
            } => "texture"@ + extents_text(
                expected_width,
                expected_height,
                actual_width,
                actual_height,
            ),
            TextureIoError::PixelBufferLengthMismatch { expected, actual } => {
                "pixel buffer length mismatch: expected "@ + crate::text::decimal_text(
                    expected as nat,
                ) + " bytes, got "@ + crate::text::decimal_text(actual as nat)
            },
            TextureIoError::AtlasSlotOutOfBounds { slot_index, total_slots } => "atlas slot "@
                + crate::text::decimal_text(slot_index as nat)
                + " is out of bounds for layout with "@ + crate::text::decimal_text(
                total_slots as nat,
            ) + " slots"@,
            TextureIoError::AtlasLayerReadbackMissing { layer, available_layers } => {
                "atlas layer "@ + crate::text::decimal_text(layer as nat)
                    + " is unavailable in readback set with "@ + crate::text::decimal_text(
                    available_layers as nat,
                ) + " layers"@
            },
            TextureIoError::AtlasReadbackExtentMismatch {
                expected_width,
                expected_height,
                actual_width,
                actual_height,
            } => "atlas readback"@ + extents_text(
                expected_width,
                expected_height,
                actual_width,
                actual_height,
            ),
            TextureIoError::UnsupportedTextureFormat(format) => {
                "unsupported texture format for RGBA8 IO: "@ + format.name_text()
            },
        }
    }

    /// The message for this error.
    pub fn message(&self) -> (message: String)
        ensures
            message@ == self.text(),
    {
        match *self {
            TextureIoError::InvalidExtent { width, height } => {
                "invalid texture extent ".to_owned().concat(decimal(width as u64).as_str()).concat(
                    "x",
                ).concat(decimal(height as u64).as_str())
            },
            TextureIoError::InvalidLayerCount(layers) => {
                "invalid texture layer count ".to_owned().concat(decimal(layers as u64).as_str())
            },
            TextureIoError::LayerOutOfBounds { layer, layers } => {
                "texture layer ".to_owned().concat(decimal(layer as u64).as_str()).concat(
                    " is out of bounds for ",
                ).concat(decimal(layers as u64).as_str()).concat(" layers")
            },
            TextureIoError::ExtentMismatch {
                expected_width,
                expected_height,
                actual_width,
                actual_height,
            } => {
                "texture".to_owned().concat(
                    extents_message(
                        expected_width,
                        expected_height,
                        actual_width,
                        actual_height,
                    ).as_str(),
                )
            },
            TextureIoError::PixelBufferLengthMismatch { expected, actual } => {
                "pixel buffer length mismatch: expected ".to_owned().concat(
                    decimal(expected as u64).as_str(),
                ).concat(" bytes, got ").concat(decimal(actual as u64).as_str())
            },
            TextureIoError::AtlasSlotOutOfBounds { slot_index, total_slots } => {
                "atlas slot ".to_owned().concat(decimal(slot_index as u64).as_str()).concat(
                    " is out of bounds for layout with ",
                ).concat(decimal(total_slots as u64).as_str()).concat(" slots")
            },
            TextureIoError::AtlasLayerReadbackMissing { layer, available_layers } => {
                "atlas layer ".to_owned().concat(decimal(layer as u64).as_str()).concat(
                    " is unavailable in readback set with ",
                ).concat(decimal(available_layers as u64).as_str()).concat(" layers")
            },
            TextureIoError::AtlasReadbackExtentMismatch {
                expected_width,
                expected_height,
                actual_width,
                actual_height,
            } => {
                "atlas readback".to_owned().concat(
                    extents_message(
                        expected_width,
                        expected_height,
                        actual_width,
                        actual_height,
                    ).as_str(),
                )
            },
            TextureIoError::UnsupportedTextureFormat(format) => {
                "unsupported texture format for RGBA8 IO: ".to_owned().concat(format.name())
            },
        }
    }
}

/// Why a texture cannot have an extent, if it cannot.
pub open spec fn extent_error(width: u32, height: u32) -> Option<TextureIoError> {
    if width == 0 || height == 0 {
        Some(TextureIoError::InvalidExtent { width, height })
    } else {
        None
    }
}

/// Why a buffer does not hold an image, if it does not: four bytes for each
/// pixel.
pub open spec fn buffer_error(len: int, width: u32, height: u32) -> Option<TextureIoError> {
    let expected = crate::images::stored_image::rgba8_len(width, height);
    if expected > usize::MAX {
        Some(TextureIoError::InvalidExtent { width, height })
    } else if len != expected {
        Some(
            TextureIoError::PixelBufferLengthMismatch {
                expected: expected as usize,
                actual: len as usize,
            },
        )
    } else {
        None
    }
}

/// An error becomes a refusal, and none a success.
pub open spec fn refused(error: Option<TextureIoError>) -> Result<(), TextureIoError> {
    match error {
        Some(reason) => Err(reason),
        None => Ok(()),
    }
}

pub fn validate_texture_extent(width: u32, height: u32) -> (result: Result<(), TextureIoError>)
    ensures
        result == refused(extent_error(width, height)),
{
    if width == 0 || height == 0 {
        Err(TextureIoError::InvalidExtent { width, height })
    } else {
        Ok(())
    }
}

pub fn validate_rgba8_buffer(len: usize, width: u32, height: u32) -> (result: Result<
    (),
    TextureIoError,
>)
    ensures
        result == refused(buffer_error(len as int, width, height)),
{
    proof {
        assert(0 <= width * height <= u32::MAX * u32::MAX) by (nonlinear_arith)
            requires
                width <= u32::MAX,
                height <= u32::MAX,
        ;
    }
    let expected: u128 = (width as u128) * (height as u128) * 4;
    if expected > usize::MAX as u128 {
        return Err(TextureIoError::InvalidExtent { width, height });
    }
    let expected: usize = expected as usize;
    if len == expected {
        Ok(())
    } else {
        Err(TextureIoError::PixelBufferLengthMismatch { expected, actual: len })
    }
}

/// How a texture is asked for.
#[derive(Debug, Clone, Copy, PartialEq, Eq, Structural)]
pub struct RendererTextureDescriptor {
    pub width: u32,
    pub height: u32,
    pub layers: u32,
    pub format: TextureFormat,
    pub usage: TextureUsage,
}

impl RendererTextureDescriptor {
    /// A texture of tiles with four bytes for each pixel, which can be copied to
    /// and from, sampled and rendered to.
    pub fn atlas_rgba8_unorm(width: u32, height: u32, layers: u32) -> (descriptor: Self)
        ensures
            descriptor == (RendererTextureDescriptor {
                width,
                height,
                layers,
                format: TextureFormat::Rgba8Unorm,
                usage: TextureUsage {
                    copy_src: true,
                    copy_dst: true,
                    texture_binding: true,
                    storage_binding: false,
                    render_attachment: true,
                },
            }),
    {
        RendererTextureDescriptor {
            width,
            height,
            layers,
            format: TextureFormat::Rgba8Unorm,
            usage: TextureUsage {
                copy_src: true,
                copy_dst: true,
                texture_binding: true,
                storage_binding: false,
                render_attachment: true,
            },
        }
    }
}

/// The size and format of a texture.
#[derive(Debug, Clone, Copy, PartialEq, Eq, Structural)]
pub struct RendererTexture {
    pub width: u32,
    pub height: u32,
    pub layers: u32,
    pub format: TextureFormat,
}

impl RendererTexture {
    /// Why a texture has no such layer, if it has none.
    pub open spec fn layer_error(&self, layer: u32) -> Option<TextureIoError> {
        if layer < self.layers {
            None
        } else {
            Some(TextureIoError::LayerOutOfBounds { layer, layers: self.layers })
        }
    }

    /// Why a layer has another extent, if it has.
    pub open spec fn mismatch_error(&self, width: u32, height: u32) -> Option<TextureIoError> {
        if self.width == width && self.height == height {
            None
        } else {
            Some(
                TextureIoError::ExtentMismatch {
                    expected_width: self.width,
                    expected_height: self.height,
                    actual_width: width,
                    actual_height: height,
                },
            )
        }
    }

    /// Why pixels cannot be exchanged with a texture of this format, if they
    /// cannot.
    pub open spec fn format_error(&self) -> Option<TextureIoError> {
        if self.format == TextureFormat::Rgba8Unorm {
            None
        } else {
            Some(TextureIoError::UnsupportedTextureFormat(self.format))
        }
    }

    /// A new texture, which is not empty.
    pub fn new(descriptor: &RendererTextureDescriptor) -> (result: Result<Self, TextureIoError>)
        ensures
            result == match extent_error(descriptor.width, descriptor.height) {
                Some(error) => Err(error),
                None => if descriptor.layers == 0 {
                    Err(TextureIoError::InvalidLayerCount(0))
                } else {
                    Ok(
                        RendererTexture {
                            width: descriptor.width,
                            height: descriptor.height,
                            layers: descriptor.layers,
                            format: descriptor.format,
                        },
                    )
                },
            },
    {
        match validate_texture_extent(descriptor.width, descriptor.height) {
            Ok(()) => {},
            Err(error) => {
                return Err(error);
            },
        }
        if descriptor.layers == 0 {
            return Err(TextureIoError::InvalidLayerCount(0));
        }
        Ok(
            RendererTexture {
                width: descriptor.width,
                height: descriptor.height,
                layers: descriptor.layers,
                format: descriptor.format,
            },
        )
    }

    pub fn validate_rgba8_unorm(&self) -> (result: Result<(), TextureIoError>)
        ensures
            result == refused(self.format_error()),
    {
        if self.format == TextureFormat::Rgba8Unorm {
            Ok(())
        } else {
            Err(TextureIoError::UnsupportedTextureFormat(self.format))
        }
    }

    pub fn validate_layer(&self, layer: u32) -> (result: Result<(), TextureIoError>)
        ensures
            result == refused(self.layer_error(layer)),
    {
        if layer < self.layers {
            Ok(())
        } else {
            Err(TextureIoError::LayerOutOfBounds { layer, layers: self.layers })
        }
    }

    pub fn validate_extent(&self, width: u32, height: u32) -> (result: Result<(), TextureIoError>)
        ensures
            result == refused(self.mismatch_error(width, height)),
    {
        if self.width == width && self.height == height {
            Ok(())
        } else {
            Err(
                TextureIoError::ExtentMismatch {
                    expected_width: self.width,
                    expected_height: self.height,
                    actual_width: width,
                    actual_height: height,
                },
            )
        }
    }

    /// Why pixels cannot be uploaded into a layer, if they cannot. The extent
    /// is looked at first, then the buffer, the layer, the match of the extents
    /// and the format.
    pub open spec fn upload_error(
        &self,
        len: int,
        width: u32,
        height: u32,
        layer: u32,
    ) -> Option<TextureIoError> {
        if extent_error(width, height) is Some {
            extent_error(width, height)
        } else if buffer_error(len, width, height) is Some {
            buffer_error(len, width, height)
        } else if self.layer_error(layer) is Some {
            self.layer_error(layer)
        } else if self.mismatch_error(width, height) is Some {
            self.mismatch_error(width, height)
        } else {
            self.format_error()
        }
    }

    /// Checks that pixels can be uploaded into a layer.
    pub fn validate_upload(&self, len: usize, width: u32, height: u32, layer: u32) -> (result:
        Result<(), TextureIoError>)
        ensures
            result == refused(self.upload_error(len as int, width, height, layer)),
    {
        match validate_texture_extent(width, height) {
            Ok(()) => {},
            Err(error) => {
                return Err(error);
            },
        }
        match validate_rgba8_buffer(len, width, height) {
            Ok(()) => {},
            Err(error) => {
                return Err(error);
            },
        }
        match self.validate_layer(layer) {
            Ok(()) => {},
            Err(error) => {
                return Err(error);
            },
        }
        match self.validate_extent(width, height) {
            Ok(()) => {},
            Err(error) => {
                return Err(error);
            },
        }
        self.validate_rgba8_unorm()
    }

    /// Plans the readback of a layer.
    pub fn plan_readback(&self, layer: u32) -> (result: Result<ReadbackLayout, TextureIoError>)
        requires
            self.width * 4 <= u32::MAX ==> self.width * 4 + 255 <= u32::MAX,
        ensures
            match result {
                Err(error) => Some(error) == (if self.layer_error(layer) is Some {
                    self.layer_error(layer)
                } else if self.format_error() is Some {
                    self.format_error()
                } else if extent_error(self.width, self.height) is Some {
                    extent_error(self.width, self.height)
                } else {
                    Some(TextureIoError::InvalidExtent { width: self.width, height: self.height })
                }) && !(layer < self.layers && self.format == TextureFormat::Rgba8Unorm
                    && self.width > 0 && self.height > 0 && self.width * 4 <= u32::MAX),
                Ok(plan) => {
                    &&& layer < self.layers
                    &&& self.format == TextureFormat::Rgba8Unorm
                    &&& self.width > 0
                    &&& self.height > 0
                    &&& plan.bytes_per_row == self.width * 4
                    &&& plan.padded_bytes_per_row == crate::model::parts(
                        self.width * 4,
                        ROW_ALIGNMENT as int,
                    ) * ROW_ALIGNMENT
                    &&& plan.padded_bytes_per_row >= plan.bytes_per_row
                    &&& plan.buffer_size == plan.padded_bytes_per_row * self.height
                },
            },
    {
        match self.validate_layer(layer) {
            Ok(()) => {},
            Err(error) => {
                return Err(error);
            },
        }
        match self.validate_rgba8_unorm() {
            Ok(()) => {},
            Err(error) => {
                return Err(error);
            },
        }
        match validate_texture_extent(self.width, self.height) {
            Ok(()) => {},
            Err(error) => {
                return Err(error);
            },
        }
        let bytes_per_row: u32 = match self.width.checked_mul(4) {
            Some(bytes) => bytes,
            None => {
                return Err(
                    TextureIoError::InvalidExtent { width: self.width, height: self.height },
                );
            },
        };
        let blocks: u32 = div_ceil(bytes_per_row, ROW_ALIGNMENT);
        proof {
            assert(blocks * 256 <= bytes_per_row + 255);
        }
        let padded_bytes_per_row: u32 = blocks * ROW_ALIGNMENT;
        proof {
            assert(padded_bytes_per_row * self.height <= u64::MAX) by (nonlinear_arith)
                requires
                    padded_bytes_per_row <= u32::MAX,
                    self.height <= u32::MAX,
            ;
        }
        let buffer_size: u64 = padded_bytes_per_row as u64 * self.height as u64;
        Ok(ReadbackLayout { bytes_per_row, padded_bytes_per_row, buffer_size })
    }
}

/// The rows of a texture that is read back start at multiples of this.
pub const ROW_ALIGNMENT: u32 = 256;

/// How a layer is laid out in the buffer that it is read back into.
#[derive(Debug, Clone, Copy, PartialEq, Eq, Structural)]
pub struct ReadbackLayout {
    pub bytes_per_row: u32,
    pub padded_bytes_per_row: u32,
    pub buffer_size: u64,
}

/// A layer that was read back: four bytes for each pixel, row by row.
#[derive(Clone, Debug, PartialEq, Eq)]
pub struct TextureReadback {
    pub width: u32,
    pub height: u32,
    pub layer: u32,
    pub pixels_rgba8: Vec<u8>,
}

/// Takes the padding out of a layer that was read back.
pub fn unpad_readback(
    extent: RendererTexture,
    layer: u32,
    plan: ReadbackLayout,
    mapped: &Vec<u8>,
) -> (readback: TextureReadback)
    requires
        extent.width > 0,
        plan.bytes_per_row == extent.width * 4,
        plan.padded_bytes_per_row >= plan.bytes_per_row,
        plan.padded_bytes_per_row * extent.height <= mapped@.len(),
        crate::images::stored_image::rgba8_len(extent.width, extent.height) <= usize::MAX,
    ensures
        readback.width == extent.width,
        readback.height == extent.height,
        readback.layer == layer,
        readback.pixels_rgba8@.len() == crate::images::stored_image::rgba8_len(
            extent.width,
            extent.height,
        ),
        forall|row: int, column: int|
            0 <= row < extent.height && 0 <= column < plan.bytes_per_row
                ==> #[trigger] crate::blocks::at(
                readback.pixels_rgba8@,
                plan.bytes_per_row as int,
                row,
                column,
            ) == crate::blocks::at(mapped@, plan.padded_bytes_per_row as int, row, column),
{
    let ghost stride = plan.bytes_per_row as int;
    let ghost padded = plan.padded_bytes_per_row as int;
    let ghost height = extent.height as int;
    proof {
        assert(extent.width * extent.height * 4 == stride * height) by (nonlinear_arith)
            requires
                stride == extent.width * 4,
                height == extent.height,
        ;
        if height > 0 {
            assert((height - 1) * stride + stride == stride * height) by (nonlinear_arith);
            assert((height - 1) * padded + stride <= padded * height) by (nonlinear_arith)
                requires
                    stride <= padded,
                    height > 0,
            ;
        }
    }
    let bytes_per_row: usize = plan.bytes_per_row as usize;
    let rows: usize = extent.height as usize;
    let len: usize = bytes_per_row * rows;
    let mut pixels: Vec<u8> = zeroed(len);
    copy_block(
        &mut pixels,
        BlockOrigin { stride: bytes_per_row, column: 0, row: 0 },
        mapped,
        BlockOrigin { stride: plan.padded_bytes_per_row as usize, column: 0, row: 0 },
        bytes_per_row,
        rows,
    );
    proof {
        assert forall|row: int, column: int|
            0 <= row < extent.height && 0 <= column
                < plan.bytes_per_row implies #[trigger] crate::blocks::at(
            pixels@,
            stride,
            row,
            column,
        ) == crate::blocks::at(mapped@, padded, row, column) by {
            assert(row * stride + stride <= height * stride) by (nonlinear_arith)
                requires
                    0 <= row < height,
                    stride >= 0,
            ;
            assert(height * stride == stride * height) by (nonlinear_arith);
        }
    }
    TextureReadback {
        width: extent.width,
        height: extent.height,
        layer,
        pixels_rgba8: pixels,
    }
}

/// A tile of an image, and where its pixels are in the atlas.
#[derive(Clone, Copy, Debug, PartialEq, Eq, Structural)]
pub struct AtlasTileReadbackRequest {
    pub atlas_layer: u32,
    pub atlas_origin_x: u32,
    pub atlas_origin_y: u32,
    pub destination_tile_index: usize,
}

/// The tiles of an image that are read from the atlas.
#[derive(Clone, Debug, PartialEq, Eq)]
pub struct AtlasImageReadbackRequest {
    pub image_width: u32,
    pub image_height: u32,
    pub tile_requests: Vec<AtlasTileReadbackRequest>,
}

/// Where the pixels of the tile in a slot are.
pub open spec fn tile_request(
    layout: AtlasLayout,
    tile_key: TileKey,
    tile_index: int,
) -> AtlasTileReadbackRequest {
    let address = layout.address_of(tile_key.slot as int);
    AtlasTileReadbackRequest {
        atlas_layer: address.layer,
        atlas_origin_x: (address.tile_x * ATLAS_TILE_SIZE + GUTTER_SIZE) as u32,
        atlas_origin_y: (address.tile_y * ATLAS_TILE_SIZE + GUTTER_SIZE) as u32,
        destination_tile_index: tile_index as usize,
    }
}

/// The requests for the first `count` tiles, or the error for the first tile
/// whose slot the atlas does not have. Tiles without a key are left out.
pub open spec fn tile_requests(
    layout: AtlasLayout,
    keys: Seq<TileKey>,
    count: int,
) -> Result<Seq<AtlasTileReadbackRequest>, TextureIoError>
    decreases count,
{
    if count <= 0 {
        Ok(Seq::empty())
    } else {
        match tile_requests(layout, keys, count - 1) {
            Err(error) => Err(error),
            Ok(earlier) => {
                let key = keys[count - 1];
                if key == TileKey::nothing() {
                    Ok(earlier)
                } else if key.slot >= layout.slot_count() {
                    Err(
                        TextureIoError::AtlasSlotOutOfBounds {
                            slot_index: key.slot,
                            total_slots: layout.slot_count() as u32,
                        },
                    )
                } else {
                    Ok(earlier.push(tile_request(layout, key, count - 1)))
                }
            },
        }
    }
}

proof fn lemma_request_error_stays(layout: AtlasLayout, keys: Seq<TileKey>, few: int, many: int)
    requires
        0 <= few <= many,
        tile_requests(layout, keys, few) is Err,
    ensures
        tile_requests(layout, keys, many) == tile_requests(layout, keys, few),
    decreases many,
{
    if few < many {
        lemma_request_error_stays(layout, keys, few, many - 1);
    }
}

/// Lists where the pixels of an image's tiles are in the atlas.
pub fn build_atlas_image_readback_request(atlas_layout: AtlasLayout, image: &Image) -> (result:
    Result<AtlasImageReadbackRequest, TextureIoError>)
    requires
        image.inv(),
        atlas_layout.inv(),
        atlas_layout.tiles_per_edge * ATLAS_TILE_SIZE <= u32::MAX,
    ensures
        match tile_requests(atlas_layout, image@.tile_keys, image@.tile_keys.len() as int) {
            Err(error) => result == Err::<AtlasImageReadbackRequest, _>(error),
            Ok(requests) => result is Ok && result->Ok_0.image_width == image@.layout.size_x
                && result->Ok_0.image_height == image@.layout.size_y
                && result->Ok_0.tile_requests@ == requests,
        },
{
    let keys = image.tile_keys();
    let count: usize = keys.len();
    let mut requests: Vec<AtlasTileReadbackRequest> = Vec::new();
    let mut tile_index: usize = 0;
    while tile_index < count
        invariant
            tile_index <= count,
            count == keys@.len(),
            keys@ == image@.tile_keys,
            atlas_layout.inv(),
            atlas_layout.tiles_per_edge * ATLAS_TILE_SIZE <= u32::MAX,
            tile_requests(atlas_layout, keys@, tile_index as int) == Ok::<_, TextureIoError>(
                requests@,
            ),
        decreases count - tile_index,
    {
        let tile_key = keys[tile_index];
        if !tile_key.is_empty() {
            let slot_index: u32 = tile_key.slot_index();
            let address = match atlas_layout.slot_address(slot_index) {
                Some(address) => address,
                None => {
                    proof {
                        lemma_request_error_stays(
                            atlas_layout,
                            keys@,
                            tile_index + 1,
                            count as int,
                        );
                    }
                    return Err(
                        TextureIoError::AtlasSlotOutOfBounds {
                            slot_index,
                            total_slots: atlas_layout.total_slots(),
                        },
                    );
                },
            };
            proof {
                crate::atlas::lemma_slot_in_atlas(atlas_layout, slot_index as int);
            }
            requests.push(
                AtlasTileReadbackRequest {
                    atlas_layer: address.layer,
                    atlas_origin_x: address.tile_x * ATLAS_TILE_SIZE + GUTTER_SIZE,
                    atlas_origin_y: address.tile_y * ATLAS_TILE_SIZE + GUTTER_SIZE,
                    destination_tile_index: tile_index,
                },
            );
        }
        tile_index += 1;
    }
    Ok(
        AtlasImageReadbackRequest {
            image_width: image.layout().size_x(),
            image_height: image.layout().size_y(),
            tile_requests: requests,
        },
    )
}

/// The number of tiles that cover a width.
pub open spec fn tiles_across(width: u32) -> int {
    crate::model::parts(width as int, IMAGE_TILE_SIZE as int)
}

/// The corner of a tile of an image, in pixels.
pub open spec fn tile_left(width: u32, tile_index: int) -> int {
    (tile_index % tiles_across(width)) * IMAGE_TILE_SIZE
}

pub open spec fn tile_top(width: u32, tile_index: int) -> int {
    (tile_index / tiles_across(width)) * IMAGE_TILE_SIZE
}

/// How much of a tile that starts at `start` lies within `size`.
pub open spec fn tile_part(size: u32, start: int) -> int {
    if start >= size {
        0
    } else if size - start < IMAGE_TILE_SIZE {
        size - start
    } else {
        IMAGE_TILE_SIZE as int
    }
}

/// A tile starts left of the right edge of its image.
pub proof fn lemma_tile_starts_in_image(width: u32, tile_index: int)
    requires
        width > 0,
        tile_index >= 0,
    ensures
        tiles_across(width) > 0,
        0 <= tile_left(width, tile_index) < width,
        0 <= tile_top(width, tile_index),
{
    let part = IMAGE_TILE_SIZE as int;
    let across = tiles_across(width);
    assert(across > 0 && (across - 1) * part < width) by (nonlinear_arith)
        requires
            across == (width + part - 1) / part,
            part == 126,
            width > 0,
    ;
    vstd::arithmetic::div_mod::lemma_mod_bound(tile_index, across);
    let column = tile_index % across;
    assert(0 <= column * part <= (across - 1) * part) by (nonlinear_arith)
        requires
            0 <= column <= across - 1,
            part == 126,
    ;
    assert(0 <= tile_index / across) by (nonlinear_arith)
        requires
            tile_index >= 0,
            across > 0,
    ;
}

/// Why a tile cannot be read, if it cannot: its layer is missing or empty.
pub open spec fn layer_fault(layer: u32, readbacks: Seq<TextureReadback>) -> Option<TextureIoError> {
    if layer >= readbacks.len() {
        Some(
            TextureIoError::AtlasLayerReadbackMissing {
                layer,
                available_layers: readbacks.len() as usize,
            },
        )
    } else if readbacks[layer as int].width == 0 || readbacks[layer as int].height == 0 {
        Some(
            TextureIoError::AtlasReadbackExtentMismatch {
                expected_width: ATLAS_TILE_SIZE,
                expected_height: ATLAS_TILE_SIZE,
                actual_width: readbacks[layer as int].width,
                actual_height: readbacks[layer as int].height,
            },
        )
    } else {
        None
    }
}

/// The pixels that a tile takes from a layer lie within the layer's bytes.
pub open spec fn layer_holds(
    readback: TextureReadback,
    left: int,
    top: int,
    columns: int,
    rows: int,
) -> bool {
    &&& (readback.width * 4) <= usize::MAX
    &&& left * 4 <= usize::MAX
    &&& rows > 0 ==> (top + rows - 1) * (readback.width * 4) + left * 4 + columns * 4
        <= readback.pixels_rgba8@.len()
}

/// The tile can be taken out of the layers, if its layer is there.
pub open spec fn readable(
    width: u32,
    height: u32,
    request: AtlasTileReadbackRequest,
    readbacks: Seq<TextureReadback>,
) -> bool {
    let index = request.destination_tile_index as int;
    layer_fault(request.atlas_layer, readbacks) is None ==> {
        &&& width > 0
        &&& tile_top(width, index) <= usize::MAX
        &&& layer_holds(
            readbacks[request.atlas_layer as int],
            request.atlas_origin_x as int,
            request.atlas_origin_y as int,
            tile_part(width, tile_left(width, index)),
            tile_part(height, tile_top(width, index)),
        )
    }
}

/// A byte of the image that is put together from the first `count` tiles. Where
/// several tiles meet, the last one counts, and where none is, the byte is zero.
pub open spec fn composed_byte(
    request: AtlasImageReadbackRequest,
    readbacks: Seq<TextureReadback>,
    count: int,
    row: int,
    column: int,
) -> u8
    decreases count,
{
    if count <= 0 {
        0
    } else {
        let tile = request.tile_requests@[count - 1];
        let index = tile.destination_tile_index as int;
        let left = tile_left(request.image_width, index);
        let top = tile_top(request.image_width, index);
        if top <= row < top + tile_part(request.image_height, top) && left * 4 <= column < left * 4
            + tile_part(request.image_width, left) * 4 {
            let layer = readbacks[tile.atlas_layer as int];
            crate::blocks::at(
                layer.pixels_rgba8@,
                layer.width * 4,
                tile.atlas_origin_y + (row - top),
                tile.atlas_origin_x * 4 + (column - left * 4),
            )
        } else {
            composed_byte(request, readbacks, count - 1, row, column)
        }
    }
}

/// The error for the first of the tiles that cannot be read, if one cannot.
pub open spec fn first_layer_fault(
    requests: Seq<AtlasTileReadbackRequest>,
    readbacks: Seq<TextureReadback>,
) -> Option<TextureIoError>
    decreases requests.len(),
{
    if requests.len() == 0 {
        None
    } else {
        match first_layer_fault(requests.drop_last(), readbacks) {
            Some(error) => Some(error),
            None => layer_fault(requests.last().atlas_layer, readbacks),
        }
    }
}

proof fn lemma_first_fault_stays(
    few: Seq<AtlasTileReadbackRequest>,
    many: Seq<AtlasTileReadbackRequest>,
    readbacks: Seq<TextureReadback>,
)
    requires
        few.len() <= many.len(),
        few == many.take(few.len() as int),
        first_layer_fault(few, readbacks) is Some,
    ensures
        first_layer_fault(many, readbacks) == first_layer_fault(few, readbacks),
    decreases many.len(),
{
    if few.len() == many.len() {
        assert(few =~= many);
    } else {
        assert(many.drop_last().take(few.len() as int) =~= few);
        lemma_first_fault_stays(few, many.drop_last(), readbacks);
    }
}

/// Looks at the layer that a tile is read from.
pub fn check_layer(layer: u32, layer_readbacks: &Vec<TextureReadback>) -> (fault: Option<
    TextureIoError,
>)
    ensures
        fault == layer_fault(layer, layer_readbacks@),
{
    if layer as usize >= layer_readbacks.len() {
        return Some(
            TextureIoError::AtlasLayerReadbackMissing {
                layer,
                available_layers: layer_readbacks.len(),
            },
        );
    }
    let readback = &layer_readbacks[layer as usize];
    if readback.width == 0 || readback.height == 0 {
        return Some(
            TextureIoError::AtlasReadbackExtentMismatch {
                expected_width: ATLAS_TILE_SIZE,
                expected_height: ATLAS_TILE_SIZE,
                actual_width: readback.width,
                actual_height: readback.height,
            },
        );
    }
    None
}

/// How much of a tile that starts at `start` lies within `size`.
pub fn part_of_tile(size: u32, start: usize) -> (part: usize)
    ensures
        part == tile_part(size, start as int),
        part <= IMAGE_TILE_SIZE,
{
    let size: usize = size as usize;
    if start >= size {
        0
    } else if size - start < IMAGE_TILE_SIZE as usize {
        size - start
    } else {
        IMAGE_TILE_SIZE as usize
    }
}

/// The left edge of a tile of an image.
pub fn tile_left_edge(width: u32, tile_index: usize) -> (left: usize)
    requires
        width > 0,
    ensures
        left == tile_left(width, tile_index as int),
{
    proof {
        lemma_tile_starts_in_image(width, tile_index as int);
    }
    let across: usize = div_ceil(width, IMAGE_TILE_SIZE) as usize;
    let column: usize = tile_index % across;
    column * IMAGE_TILE_SIZE as usize
}

/// The corner of a tile of an image.
pub fn tile_corner(width: u32, tile_index: usize) -> (corner: (usize, usize))
    requires
        width > 0,
        tile_top(width, tile_index as int) <= usize::MAX,
    ensures
        corner.0 == tile_left(width, tile_index as int),
        corner.1 == tile_top(width, tile_index as int),
{
    proof {
        lemma_tile_starts_in_image(width, tile_index as int);
    }
    let across: usize = div_ceil(width, IMAGE_TILE_SIZE) as usize;
    let row: usize = tile_index / across;
    (tile_left_edge(width, tile_index), row * IMAGE_TILE_SIZE as usize)
}

/// Puts an image together from layers of the atlas that were read back.
pub fn compose_stored_image_from_atlas_readbacks(
    request: &AtlasImageReadbackRequest,
    layer_readbacks: &Vec<TextureReadback>,
) -> (result: Result<StoredImage, TextureIoError>)
    requires
        crate::images::stored_image::rgba8_len(request.image_width, request.image_height)
            <= usize::MAX,
        forall|i: int|
            0 <= i < request.tile_requests@.len() ==> readable(
                request.image_width,
                request.image_height,
                #[trigger] request.tile_requests@[i],
                layer_readbacks@,
            ),
    ensures
        match first_layer_fault(request.tile_requests@, layer_readbacks@) {
            Some(error) => result == Err::<StoredImage, _>(error),
            None => {
                &&& result is Ok
                &&& result->Ok_0@.inv()
                &&& result->Ok_0@.width == request.image_width
                &&& result->Ok_0@.height == request.image_height
                &&& forall|row: int, column: int|
                    0 <= row < request.image_height && 0 <= column < request.image_width * 4
                        ==> #[trigger] crate::blocks::at(
                        result->Ok_0@.pixels,
                        request.image_width * 4,
                        row,
                        column,
                    ) == composed_byte(
                        *request,
                        layer_readbacks@,
                        request.tile_requests@.len() as int,
                        row,
                        column,
                    )
            },
        },
{
    let width: usize = request.image_width as usize;
    let height: usize = request.image_height as usize;
    let ghost stride = request.image_width * 4;
    proof {
        assert(request.image_width * request.image_height * 4 == request.image_height * stride
            && request.image_width * request.image_height >= 0) by (nonlinear_arith)
            requires
                stride == request.image_width * 4,
                request.image_width >= 0,
                request.image_height >= 0,
        ;
    }
    let len: usize = width * height * 4;
    let mut pixels_rgba8: Vec<u8> = zeroed(len);
    proof {
        assert forall|row: int, column: int|
            0 <= row < height && 0 <= column < stride implies #[trigger] crate::blocks::at(
            pixels_rgba8@,
            stride,
            row,
            column,
        ) == composed_byte(*request, layer_readbacks@, 0, row, column) by {
            lemma_byte_in_image(stride, height as int, row, column);
        }
    }
    let mut index: usize = 0;
    while index < request.tile_requests.len()
        invariant
            index <= request.tile_requests@.len(),
            width == request.image_width,
            height == request.image_height,
            stride == request.image_width * 4,
            len == height * stride,
            len == crate::images::stored_image::rgba8_len(
                request.image_width,
                request.image_height,
            ),
            pixels_rgba8@.len() == len,
            forall|i: int|
                0 <= i < request.tile_requests@.len() ==> readable(
                    request.image_width,
                    request.image_height,
                    #[trigger] request.tile_requests@[i],
                    layer_readbacks@,
                ),
            first_layer_fault(request.tile_requests@.take(index as int), layer_readbacks@) is None,
            forall|row: int, column: int|
                0 <= row < height && 0 <= column < stride ==> #[trigger] crate::blocks::at(
                    pixels_rgba8@,
                    stride,
                    row,
                    column,
                ) == composed_byte(*request, layer_readbacks@, index as int, row, column),
        decreases request.tile_requests@.len() - index,
    {
        let tile = request.tile_requests[index];
        proof {
            let longer = request.tile_requests@.take(index + 1);
            assert(longer.drop_last() =~= request.tile_requests@.take(index as int));
            if first_layer_fault(longer, layer_readbacks@) is Some {
                lemma_first_fault_stays(longer, request.tile_requests@, layer_readbacks@);
            }
            assert(readable(
                request.image_width,
                request.image_height,
                request.tile_requests@[index as int],
                layer_readbacks@,
            ));
        }
        match check_layer(tile.atlas_layer, layer_readbacks) {
            Some(error) => {
                return Err(error);
            },
            None => {},
        }
        let readback = &layer_readbacks[tile.atlas_layer as usize];
        let (left, top) = tile_corner(request.image_width, tile.destination_tile_index);
        let copy_width: usize = part_of_tile(request.image_width, left);
        let copy_height: usize = part_of_tile(request.image_height, top);
        let ghost before = pixels_rgba8@;
        proof {
            lemma_tile_starts_in_image(request.image_width, tile.destination_tile_index as int);
            if copy_height > 0 {
                lemma_byte_in_image(stride, height as int, top + copy_height - 1, 0);
                assert((top + copy_height - 1) * stride + stride <= height * stride)
                    by (nonlinear_arith)
                    requires
                        top + copy_height <= height,
                        stride >= 0,
                ;
                lemma_stride_fits(stride, height as int);
            }
        }
        if copy_height > 0 {
            let to = BlockOrigin { stride: width * 4, column: left * 4, row: top };
            let from = BlockOrigin {
                stride: readback.width as usize * 4,
                column: tile.atlas_origin_x as usize * 4,
                row: tile.atlas_origin_y as usize,
            };
            copy_block(
                &mut pixels_rgba8,
                to,
                &readback.pixels_rgba8,
                from,
                copy_width * 4,
                copy_height,
            );
            proof {
                assert forall|row: int, column: int|
                    0 <= row < height && 0 <= column < stride implies #[trigger] crate::blocks::at(
                    pixels_rgba8@,
                    stride,
                    row,
                    column,
                ) == crate::blocks::copied_at(
                    before,
                    to,
                    readback.pixels_rgba8@,
                    from,
                    copy_width * 4,
                    copy_height as int,
                    row,
                    column,
                ) by {
                    lemma_byte_in_image(stride, height as int, row, column);
                    assert(to.stride == stride);
                }
                assert forall|row: int, column: int|
                    0 <= row < height && 0 <= column < stride implies #[trigger] crate::blocks::at(
                    pixels_rgba8@,
                    stride,
                    row,
                    column,
                ) == composed_byte(*request, layer_readbacks@, index + 1, row, column) by {
                    assert(crate::blocks::at(before, stride, row, column) == composed_byte(
                        *request,
                        layer_readbacks@,
                        index as int,
                        row,
                        column,
                    ));
                }
            }
        }
        proof {
            assert forall|row: int, column: int|
                0 <= row < height && 0 <= column < stride implies #[trigger] crate::blocks::at(
                pixels_rgba8@,
                stride,
                row,
                column,
            ) == composed_byte(*request, layer_readbacks@, index + 1, row, column) by {
                lemma_byte_in_image(stride, height as int, row, column);
                assert(crate::blocks::at(before, stride, row, column) == composed_byte(
                    *request,
                    layer_readbacks@,
                    index as int,
                    row,
                    column,
                ));
            }
        }
        index += 1;
    }
    assert(request.tile_requests@.take(index as int) =~= request.tile_requests@);
    match StoredImage::new_rgba8(request.image_width, request.image_height, pixels_rgba8) {
        Ok(image) => Ok(image),
        Err(_) => Err(
            TextureIoError::InvalidExtent {
                width: request.image_width,
                height: request.image_height,
            },
        ),
    }
}

proof fn lemma_byte_in_image(stride: int, height: int, row: int, column: int)
    requires
        0 <= row < height,
        0 <= column,
        0 <= stride,
    ensures
        0 <= row * stride,
        column < stride ==> row * stride + column < height * stride,
{
    assert(0 <= row * stride && row * stride + stride <= height * stride) by (nonlinear_arith)
        requires
            0 <= row < height,
            0 <= stride,
    ;
}

proof fn lemma_stride_fits(stride: int, height: int)
    requires
        0 < height,
        0 <= stride,
    ensures
        stride <= height * stride,
{
    assert(stride <= height * stride) by (nonlinear_arith)
        requires
            0 < height,
            0 <= stride,
    ;
}

/// The layers hold a tile of an image where a request looks for it, as far as the
/// tile lies in the image.
pub open spec fn layers_hold_tile(
    image: StoredImageModel,
    request: AtlasTileReadbackRequest,
    readbacks: Seq<TextureReadback>,
) -> bool {
    let index = request.destination_tile_index as int;
    let layer = readbacks[request.atlas_layer as int];
    forall|x: int, y: int, channel: int|
        0 <= x < tile_part(image.width, tile_left(image.width, index)) && 0 <= y < tile_part(
            image.height,
            tile_top(image.width, index),
        ) && 0 <= channel < 4 ==> crate::blocks::at(
            layer.pixels_rgba8@,
            layer.width * 4,
            request.atlas_origin_y + y,
            request.atlas_origin_x * 4 + (x * 4 + channel),
        ) == #[trigger] image.tile_channel(index, x, y, channel)
}

/// The tile that a pixel lies in is the only one that holds it.
proof fn lemma_one_tile_holds_a_pixel(width: u32, height: u32, index: int, x: int, y: int)
    requires
        width > 0,
        index >= 0,
        0 <= x < width,
        0 <= y < height,
    ensures
        ({
            let left = tile_left(width, index);
            let top = tile_top(width, index);
            (left <= x < left + tile_part(width, left) && top <= y < top + tile_part(height, top))
                <==> index == ImageLayout::for_size(width, height).index_at(x, y)
        }),
{
    let across = tiles_across(width);
    lemma_tile_starts_in_image(width, index);
    let layout = ImageLayout::for_size(width, height);
    assert(across <= width) by (nonlinear_arith)
        requires
            across == (width + 126 - 1) / 126,
            width > 0,
    ;
    assert(layout.tile_x == across);
    let column = index % across;
    let row = index / across;
    assert(index == row * across + column && 0 <= column < across && row >= 0)
        by (nonlinear_arith)
        requires
            column == index % across,
            row == index / across,
            across > 0,
            index >= 0,
    ;
    assert(0 <= x / 126 < across) by (nonlinear_arith)
        requires
            across == (width + 126 - 1) / 126,
            0 <= x < width,
    ;
    let at = layout.index_at(x, y);
    assert(at == (y / 126) * across + x / 126);
    if index == at {
        assert(column == x / 126 && row == y / 126) by (nonlinear_arith)
            requires
                row * across + column == (y / 126) * across + x / 126,
                0 <= column < across,
                0 <= x / 126 < across,
        ;
    }
    assert(column * 126 <= x < column * 126 + 126 <==> column == x / 126);
    assert(row * 126 <= y < row * 126 + 126 <==> row == y / 126);
}

/// A byte that is put together from tiles is that of the image which the tiles
/// come from, if its tile is among them, and else zero.
proof fn lemma_composed_byte(
    image: StoredImageModel,
    request: AtlasImageReadbackRequest,
    readbacks: Seq<TextureReadback>,
    count: int,
    x: int,
    y: int,
    channel: int,
)
    requires
        image.inv(),
        request.image_width == image.width,
        request.image_height == image.height,
        0 <= count <= request.tile_requests@.len(),
        forall|i: int|
            0 <= i < request.tile_requests@.len() ==> layers_hold_tile(
                image,
                #[trigger] request.tile_requests@[i],
                readbacks,
            ),
        0 <= x < image.width,
        0 <= y < image.height,
        0 <= channel < 4,
    ensures
        composed_byte(request, readbacks, count, y, x * 4 + channel) == (if exists|i: int|
            0 <= i < count && (#[trigger] request.tile_requests@[i]).destination_tile_index
                == image.tiling().index_at(x, y) {
            image.channel(x, y, channel)
        } else {
            0
        }),
    decreases count,
{
    if count > 0 {
        lemma_composed_byte(image, request, readbacks, count - 1, x, y, channel);
        let tile = request.tile_requests@[count - 1];
        let index = tile.destination_tile_index as int;
        let left = tile_left(image.width, index);
        let top = tile_top(image.width, index);
        lemma_one_tile_holds_a_pixel(image.width, image.height, index, x, y);
        if index == image.tiling().index_at(x, y) {
            assert(layers_hold_tile(image, tile, readbacks));
            lemma_tile_starts_in_image(image.width, index);
            assert(image.tiling().tile_x == tiles_across(image.width)) by (nonlinear_arith)
                requires
                    image.tiling().tile_x == tiles_across(image.width) as u32,
                    0 < tiles_across(image.width),
                    tiles_across(image.width) == (image.width + 126 - 1) / 126,
                    0 < image.width <= u32::MAX,
            ;
            assert(image.tile_channel(index, x - left, y - top, channel) == image.channel(
                x,
                y,
                channel,
            ));
        } else {
            assert(forall|i: int|
                0 <= i < count && (#[trigger] request.tile_requests@[i]).destination_tile_index
                    == image.tiling().index_at(x, y) ==> i < count - 1);
        }
    }
}

/// Every tile that has a key is asked for.
proof fn lemma_tile_is_requested(layout: AtlasLayout, keys: Seq<TileKey>, count: int, index: int)
    requires
        0 <= index < count <= keys.len(),
        keys[index] != TileKey::nothing(),
        tile_requests(layout, keys, count) is Ok,
    ensures
        exists|i: int|
            0 <= i < tile_requests(layout, keys, count)->Ok_0.len() && #[trigger] tile_requests(
                layout,
                keys,
                count,
            )->Ok_0[i] == tile_request(layout, keys[index], index),
    decreases count,
{
    let requests = tile_requests(layout, keys, count)->Ok_0;
    if index < count - 1 {
        lemma_tile_is_requested(layout, keys, count - 1, index);
        let earlier = tile_requests(layout, keys, count - 1)->Ok_0;
        let i = choose|i: int|
            0 <= i < earlier.len() && #[trigger] earlier[i] == tile_request(
                layout,
                keys[index],
                index,
            );
        assert(requests[i] == earlier[i]);
    } else {
        assert(requests[requests.len() - 1] == tile_request(layout, keys[index], index));
    }
}

/// What is exported is what was stored: if each tile that has a key lies in the
/// atlas as the image has it, and the tiles without a key are empty, then the
/// image that is put together from the atlas has every byte of the image.
pub proof fn lemma_export_gives_the_image_back(
    image: StoredImageModel,
    layout: AtlasLayout,
    keys: Seq<TileKey>,
    request: AtlasImageReadbackRequest,
    readbacks: Seq<TextureReadback>,
    x: int,
    y: int,
    channel: int,
)
    requires
        image.inv(),
        keys.len() == image.tiling().tile_count(),
        keys.len() <= usize::MAX,
        tile_requests(layout, keys, keys.len() as int) == Ok::<_, TextureIoError>(
            request.tile_requests@,
        ),
        request.image_width == image.width,
        request.image_height == image.height,
        forall|i: int|
            0 <= i < request.tile_requests@.len() ==> layers_hold_tile(
                image,
                #[trigger] request.tile_requests@[i],
                readbacks,
            ),
        forall|index: int|
            0 <= index < keys.len() && #[trigger] keys[index] == TileKey::nothing()
                ==> !image.tile_is_filled(index),
        0 <= x < image.width,
        0 <= y < image.height,
        0 <= channel < 4,
    ensures
        composed_byte(
            request,
            readbacks,
            request.tile_requests@.len() as int,
            y,
            x * 4 + channel,
        ) == image.channel(x, y, channel),
{
    let count = request.tile_requests@.len() as int;
    let index = image.tiling().index_at(x, y);
    crate::images::stored_image::lemma_tiles_hold_every_pixel(image, x, y, channel);
    lemma_composed_byte(image, request, readbacks, count, x, y, channel);
    if keys[index] == TileKey::nothing() {
        let left = tile_left(image.width, index);
        let top = tile_top(image.width, index);
        lemma_one_tile_holds_a_pixel(image.width, image.height, index, x, y);
        lemma_tile_starts_in_image(image.width, index);
        assert(image.tiling().tile_x == tiles_across(image.width)) by (nonlinear_arith)
            requires
                image.tiling().tile_x == tiles_across(image.width) as u32,
                0 < tiles_across(image.width),
                tiles_across(image.width) == (image.width + 126 - 1) / 126,
                0 < image.width <= u32::MAX,
        ;
        assert(image.tile_channel(index, x - left, y - top, channel) == image.channel(
            x,
            y,
            channel,
        ));
    } else {
        lemma_tile_is_requested(layout, keys, keys.len() as int, index);
        let i = choose|i: int|
            0 <= i < count && #[trigger] request.tile_requests@[i] == tile_request(
                layout,
                keys[index],
                index,
            );
        assert(request.tile_requests@[i].destination_tile_index == index);
    }
}

} // verus!
