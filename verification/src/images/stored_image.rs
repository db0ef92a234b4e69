//! An image with its pixels in memory.
use vstd::prelude::*;
use vstd::string::StringExecFns;

use crate::images::layout::ImageLayout;
use crate::text::decimal;
use crate::tiles::IMAGE_TILE_SIZE;

verus! {

/// The number of bytes of a pixel.
pub const RGBA_BYTES_PER_PIXEL: usize = 4;

/// The number of bytes in one row of a tile.
pub const TILE_ROW_BYTES: usize = 504;

/// The number of bytes in a tile.
pub const TILE_BYTES: usize = 63_504;

#[derive(Debug, Clone, Copy, PartialEq, Eq, Structural)]
pub enum StoredImageError {
    InvalidPixelCount { expected: usize, actual: usize },
    TooLarge,
    TileOutOfBounds,
}

impl StoredImageError {
    /// The text of the message for an error.
    pub open spec fn text(&self) -> Seq<char> {
        match self {
            StoredImageError::InvalidPixelCount { expected, actual } => {
                "stored image pixel count mismatch: expected "@ + crate::text::decimal_text(
                    *expected as nat,
                ) + " bytes, got "@ + crate::text::decimal_text(*actual as nat)
            },
            StoredImageError::TooLarge => "stored image dimensions are too large"@,
            StoredImageError::TileOutOfBounds => "stored image tile index is out of bounds"@,
        }
    }

    /// The message for this error.
    pub fn message(&self) -> (message: String)
        ensures
            message@ == self.text(),
    {
        match self {
            StoredImageError::InvalidPixelCount { expected, actual } => {
                "stored image pixel count mismatch: expected ".to_owned().concat(
                    decimal(*expected as u64).as_str(),
                ).concat(" bytes, got ").concat(decimal(*actual as u64).as_str())
            },
            StoredImageError::TooLarge => "stored image dimensions are too large".to_owned(),
            StoredImageError::TileOutOfBounds => {
                "stored image tile index is out of bounds".to_owned()
            },
        }
    }
}

/// What a stored image holds: four bytes for each pixel, row by row.
#[verifier::ext_equal]
pub struct StoredImageModel {
    pub width: u32,
    pub height: u32,
    pub pixels: Seq<u8>,
}

/// An image with its pixels.
#[derive(Debug, Clone, PartialEq, Eq)]
pub struct StoredImage {
    width: u32,
    height: u32,
    pixels_rgba8: Vec<u8>,
}

impl View for StoredImage {
    type V = StoredImageModel;

    closed spec fn view(&self) -> StoredImageModel {
        StoredImageModel {
            width: self.width,
            height: self.height,
            pixels: self.pixels_rgba8@,
        }
    }
}

/// The number of bytes that the pixels of an image take.
pub open spec fn rgba8_len(width: u32, height: u32) -> int {
    width * height * RGBA_BYTES_PER_PIXEL
}

/// The number of bytes that the pixels of an image take, if it can be counted.
fn expected_rgba8_len(width: u32, height: u32) -> (result: Result<usize, StoredImageError>)
    ensures
        match result {
            Ok(len) => len == rgba8_len(width, height),
            Err(error) => error == StoredImageError::TooLarge && rgba8_len(width, height)
                > usize::MAX,
        },
        rgba8_len(width, height) <= usize::MAX ==> result is Ok,
{
    proof {
        assert(width * height >= 0) by (nonlinear_arith);
    }
    let pixels: u64 = match (width as u64).checked_mul(height as u64) {
        None => {
            proof {
                assert(width * height <= u64::MAX) by (nonlinear_arith)
                    requires
                        width <= u32::MAX,
                        height <= u32::MAX,
                ;
            }
            return Err(StoredImageError::TooLarge);
        },
        Some(pixels) => pixels,
    };
    let bytes: u64 = match pixels.checked_mul(RGBA_BYTES_PER_PIXEL as u64) {
        None => {
            return Err(StoredImageError::TooLarge);
        },
        Some(bytes) => bytes,
    };
    if bytes > usize::MAX as u64 {
        return Err(StoredImageError::TooLarge);
    }
    Ok(bytes as usize)
}

impl StoredImageModel {
    /// Four bytes for each pixel.
    pub open spec fn inv(&self) -> bool {
        self.pixels.len() == rgba8_len(self.width, self.height)
    }

    /// The layout of the tiles.
    pub open spec fn tiling(&self) -> ImageLayout {
        ImageLayout::for_size(self.width, self.height)
    }

    /// A channel of a pixel.
    pub open spec fn channel(&self, x: int, y: int, channel: int) -> u8 {
        self.pixels[(y * self.width + x) * 4 + channel]
    }

    /// A channel of the pixel at a place of a tile. Beyond the edge of the
    /// image it is zero.
    pub open spec fn tile_channel(&self, tile_index: int, x: int, y: int, channel: int) -> u8 {
        let image_x = (tile_index % (self.tiling().tile_x as int)) * IMAGE_TILE_SIZE + x;
        let image_y = (tile_index / (self.tiling().tile_x as int)) * IMAGE_TILE_SIZE + y;
        if image_x < self.width && image_y < self.height {
            self.channel(image_x, image_y, channel)
        } else {
            0
        }
    }

    /// The bytes of a tile, row by row.
    pub open spec fn tile_bytes(&self, tile_index: int) -> Seq<u8> {
        Seq::new(
            TILE_BYTES as nat,
            |i: int| self.tile_channel(tile_index, (i % 504) / 4, i / 504, i % 4),
        )
    }

    /// Some byte of the tile is not zero.
    pub open spec fn tile_is_filled(&self, tile_index: int) -> bool {
        exists|x: int, y: int, channel: int|
            0 <= x < IMAGE_TILE_SIZE && 0 <= y < IMAGE_TILE_SIZE && 0 <= channel < 4
                && #[trigger] self.tile_channel(tile_index, x, y, channel) != 0
    }
}

/// The bytes of a run of pixels in one row lie within the image's bytes.
proof fn lemma_row_in_pixels(width: int, height: int, x: int, y: int)
    requires
        0 <= x <= width,
        0 <= y < height,
    ensures
        0 <= (y * width + x) * 4 <= width * height * 4,
        y * width + x <= width * height,
        0 <= y * width,
{
    assert(0 <= y * width && y * width + x <= width * height) by (nonlinear_arith)
        requires
            0 <= x <= width,
            0 <= y < height,
    ;
}

impl StoredImage {
    /// An image from its pixels, of which there have to be as many as its size
    /// asks for.
    pub fn new_rgba8(width: u32, height: u32, pixels_rgba8: Vec<u8>) -> (result: Result<
        Self,
        StoredImageError,
    >)
        ensures
            match result {
                Ok(image) => image@.inv() && image@ == (StoredImageModel {
                    width,
                    height,
                    pixels: pixels_rgba8@,
                }),
                Err(error) => if rgba8_len(width, height) > usize::MAX {
                    error == StoredImageError::TooLarge
                } else {
                    pixels_rgba8@.len() != rgba8_len(width, height) && error == (
                    StoredImageError::InvalidPixelCount {
                        expected: rgba8_len(width, height) as usize,
                        actual: pixels_rgba8@.len() as usize,
                    })
                },
            },
            rgba8_len(width, height) == pixels_rgba8@.len() ==> result is Ok,
    {
        let actual: usize = pixels_rgba8.len();
        let expected: usize = match expected_rgba8_len(width, height) {
            Ok(expected) => expected,
            Err(error) => {
                return Err(error);
            },
        };
        if actual != expected {
            return Err(StoredImageError::InvalidPixelCount { expected, actual });
        }
        Ok(StoredImage { width, height, pixels_rgba8 })
    }

    pub fn width(&self) -> (width: u32)
        ensures
            width == self@.width,
    {
        self.width
    }

    pub fn height(&self) -> (height: u32)
        ensures
            height == self@.height,
    {
        self.height
    }

    /// The layout of the tiles.
    pub fn layout(&self) -> (layout: ImageLayout)
        ensures
            layout == self@.tiling(),
            layout.inv(),
    {
        ImageLayout::new(self.width, self.height)
    }

    pub fn pixels_rgba8(&self) -> (pixels: &[u8])
        ensures
            pixels@ == self@.pixels,
    {
        self.pixels_rgba8.as_slice()
    }

    /// Collects the indices of the tiles that hold a byte which is not zero,
    /// in ascending order.
    pub fn collect_non_empty_tile_indices(&self, output: &mut Vec<usize>)
        requires
            self@.inv(),
            self@.tiling().tile_count() <= u32::MAX,
        ensures
            crate::images::layout::ascending(final(output)@),
            forall|index: usize| #[trigger]
                final(output)@.contains(index) <==> index < self@.tiling().tile_count()
                    && self@.tile_is_filled(index as int),
    {
        output.clear();
        let layout = self.layout();
        let total: usize = layout.total_tiles() as usize;
        let mut tile_index: usize = 0;
        while tile_index < total
            invariant
                tile_index <= total,
                total == self@.tiling().tile_count(),
                self@.tiling().tile_count() <= u32::MAX,
                self@.inv(),
                crate::images::layout::ascending(output@),
                forall|i: int| 0 <= i < output@.len() ==> output@[i] < tile_index,
                forall|index: usize| #[trigger]
                    output@.contains(index) <==> index < tile_index && self@.tile_is_filled(
                        index as int,
                    ),
            decreases total - tile_index,
        {
            let ghost before = output@;
            if self.tile_has_non_zero_pixel(tile_index) {
                output.push(tile_index);
            }
            proof {
                assert forall|index: usize| #[trigger]
                    output@.contains(index) <==> index < tile_index + 1 && self@.tile_is_filled(
                        index as int,
                    ) by {
                    if before.contains(index) {
                        let i = before.index_of(index);
                        assert(output@[i] == index);
                    }
                    if output@.contains(index) && index != tile_index {
                        let i = output@.index_of(index);
                        assert(before[i] == index);
                    }
                    if output@.len() > before.len() {
                        assert(output@[before.len() as int] == tile_index);
                    }
                    if index == tile_index && before.contains(index) {
                        let i = before.index_of(index);
                        assert(before[i] < tile_index);
                    }
                }
            }
            tile_index += 1;
        }
    }

    /// Copies a tile into a buffer of the size of a tile. What lies beyond the
    /// edge of the image is zero.
    pub fn copy_tile_rgba8(&self, tile_index: usize, output: &mut Vec<u8>) -> (result: Result<
        (),
        StoredImageError,
    >)
        requires
            self@.inv(),
            self@.tiling().tile_count() <= u32::MAX,
        ensures
            if tile_index < self@.tiling().tile_count() {
                result is Ok && final(output)@ == self@.tile_bytes(tile_index as int)
            } else {
                result == Err::<(), _>(StoredImageError::TileOutOfBounds) && final(output)@ == old(
                    output,
                )@
            },
    {
        let layout = self.layout();
        let origin = match layout.tile_canvas_origin(tile_index) {
            None => {
                return Err(StoredImageError::TileOutOfBounds);
            },
            Some(origin) => origin,
        };
        output.clear();
        let len: usize = self.pixels_rgba8.len();
        let mut position: usize = 0;
        while position < TILE_BYTES
            invariant
                self@.inv(),
                len == self.pixels_rgba8@.len(),
                position <= TILE_BYTES,
                tile_index < self@.tiling().tile_count(),
                origin.x == (tile_index % (self@.tiling().tile_x as usize)) * IMAGE_TILE_SIZE,
                origin.y == (tile_index / (self@.tiling().tile_x as usize)) * IMAGE_TILE_SIZE,
                origin.x < self.width,
                origin.y < self.height,
                output@.len() == position,
                forall|i: int|
                    0 <= i < position ==> #[trigger] output@[i] == self@.tile_channel(
                        tile_index as int,
                        (i % 504) / 4,
                        i / 504,
                        i % 4,
                    ),
            decreases TILE_BYTES - position,
        {
            let row: usize = position / TILE_ROW_BYTES;
            let column: usize = (position % TILE_ROW_BYTES) / RGBA_BYTES_PER_PIXEL;
            let channel: usize = position % RGBA_BYTES_PER_PIXEL;
            let image_x: u64 = origin.x as u64 + column as u64;
            let image_y: u64 = origin.y as u64 + row as u64;
            if image_x < self.width as u64 && image_y < self.height as u64 {
                proof {
                    lemma_row_in_pixels(
                        self.width as int,
                        self.height as int,
                        image_x + 1,
                        image_y as int,
                    );
                }
                let offset: usize = (image_y as usize * self.width as usize + image_x as usize)
                    * RGBA_BYTES_PER_PIXEL + channel;
                output.push(self.pixels_rgba8[offset]);
            } else {
                output.push(0);
            }
            position += 1;
        }
        proof {
            assert(output@ =~= self@.tile_bytes(tile_index as int));
        }
        Ok(())
    }

    /// Tells whether a tile holds a byte which is not zero.
    fn tile_has_non_zero_pixel(&self, tile_index: usize) -> (filled: bool)
        requires
            self@.inv(),
            self@.tiling().tile_count() <= u32::MAX,
        ensures
            tile_index < self@.tiling().tile_count() ==> filled == self@.tile_is_filled(
                tile_index as int,
            ),
            tile_index >= self@.tiling().tile_count() ==> !filled,
    {
        let layout = self.layout();
        let origin = match layout.tile_canvas_origin(tile_index) {
            None => {
                return false;
            },
            Some(origin) => origin,
        };
        let len: usize = self.pixels_rgba8.len();
        let width: usize = self.width as usize;
        let max_x: usize = if (origin.x as u64 + IMAGE_TILE_SIZE as u64) < self.width as u64 {
            origin.x as usize + IMAGE_TILE_SIZE as usize
        } else {
            width
        };
        let max_y: usize = if (origin.y as u64 + IMAGE_TILE_SIZE as u64) < self.height as u64 {
            origin.y as usize + IMAGE_TILE_SIZE as usize
        } else {
            self.height as usize
        };
        let ghost index = tile_index as int;
        let mut y: usize = origin.y as usize;
        while y < max_y
            invariant
                self@.inv(),
                len == self.pixels_rgba8@.len(),
                width == self.width,
                index == tile_index,
                tile_index < self@.tiling().tile_count(),
                origin.x == (tile_index % (self@.tiling().tile_x as usize)) * IMAGE_TILE_SIZE,
                origin.y == (tile_index / (self@.tiling().tile_x as usize)) * IMAGE_TILE_SIZE,
                origin.x < max_x <= self.width,
                origin.y <= y <= max_y <= self.height,
                max_x <= origin.x + IMAGE_TILE_SIZE,
                max_y <= origin.y + IMAGE_TILE_SIZE,
                max_x == self.width || max_x == origin.x + IMAGE_TILE_SIZE,
                max_y == self.height || max_y == origin.y + IMAGE_TILE_SIZE,
                forall|tx: int, ty: int, c: int|
                    0 <= tx < IMAGE_TILE_SIZE && 0 <= ty && origin.y + ty < y && 0 <= c < 4
                        ==> #[trigger] self@.tile_channel(index, tx, ty, c) == 0,
            decreases max_y - y,
        {
            proof {
                lemma_row_in_pixels(
                    self.width as int,
                    self.height as int,
                    origin.x as int,
                    y as int,
                );
                lemma_row_in_pixels(self.width as int, self.height as int, max_x as int, y as int);
            }
            let row_start: usize = (y * width + origin.x as usize) * RGBA_BYTES_PER_PIXEL;
            let row_end: usize = (y * width + max_x) * RGBA_BYTES_PER_PIXEL;
            let mut offset: usize = row_start;
            while offset < row_end
                invariant
                    self@.inv(),
                    len == self.pixels_rgba8@.len(),
                    width == self.width,
                    index == tile_index,
                    tile_index < self@.tiling().tile_count(),
                    origin.x == (tile_index % (self@.tiling().tile_x as usize)) * IMAGE_TILE_SIZE,
                    origin.y == (tile_index / (self@.tiling().tile_x as usize)) * IMAGE_TILE_SIZE,
                    origin.x < max_x <= self.width,
                    origin.y <= y < max_y <= self.height,
                    max_x <= origin.x + IMAGE_TILE_SIZE,
                    max_y <= origin.y + IMAGE_TILE_SIZE,
                    row_start == (y * width + origin.x) * 4,
                    row_end == (y * width + max_x) * 4,
                    row_start <= offset <= row_end <= self.pixels_rgba8@.len(),
                    forall|k: int| row_start <= k < offset ==> self.pixels_rgba8@[k] == 0,
                decreases row_end - offset,
            {
                if self.pixels_rgba8[offset] != 0 {
                    proof {
                        let into = offset - row_start;
                        let tx = into / 4;
                        let c = into % 4;
                        let ty = y - origin.y;
                        assert((y * width + origin.x + tx) * 4 + c == offset);
                        assert(self@.tile_channel(index, tx, ty, c) == self.pixels_rgba8@[offset as int]);
                    }
                    return true;
                }
                offset += 1;
            }
            proof {
                assert forall|tx: int, ty: int, c: int|
                    0 <= tx < IMAGE_TILE_SIZE && 0 <= ty && origin.y + ty < y + 1 && 0 <= c
                        < 4 implies #[trigger] self@.tile_channel(index, tx, ty, c) == 0 by {
                    if origin.y + ty == y && origin.x + tx < self.width {
                        let k = (y * width + origin.x + tx) * 4 + c;
                        assert(row_start <= k < row_end);
                        assert(self.pixels_rgba8@[k] == 0);
                    }
                }
            }
            y += 1;
        }
        false
    }
}

/// The tiles hold all of the image: each pixel is found again in the tile with
/// its index, at its place in that tile.
pub proof fn lemma_tiles_hold_every_pixel(
    image: StoredImageModel,
    x: int,
    y: int,
    channel: int,
)
    requires
        image.inv(),
        0 <= x < image.width,
        0 <= y < image.height,
        0 <= channel < 4,
    ensures
        0 <= image.tiling().index_at(x, y) < image.tiling().tile_count(),
        image.tile_bytes(image.tiling().index_at(x, y))[((y % 126) * 126 + x % 126) * 4 + channel]
            == image.channel(x, y, channel),
{
    let layout = image.tiling();
    let width = layout.tile_x as int;
    let height = layout.tile_y as int;
    let tile_x = x / 126;
    let tile_y = y / 126;
    let index = layout.index_at(x, y);
    assert(0 <= tile_x < width && 0 <= tile_y < height);
    assert(0 <= tile_y * width + tile_x < width * height) by (nonlinear_arith)
        requires
            0 <= tile_x < width,
            0 <= tile_y < height,
    ;
    assert((tile_y * width + tile_x) / width == tile_y && (tile_y * width + tile_x) % width
        == tile_x) by (nonlinear_arith)
        requires
            0 <= tile_x < width,
            0 <= tile_y,
    ;
    let i = ((y % 126) * 126 + x % 126) * 4 + channel;
    assert(i / 504 == y % 126);
    assert((i % 504) / 4 == x % 126);
    assert(i % 4 == channel);
    assert(0 <= i < TILE_BYTES);
    assert(tile_x * 126 + x % 126 == x);
    assert(tile_y * 126 + y % 126 == y);
}

} // verus!
