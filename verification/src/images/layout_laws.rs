//! How the tiles of an image lie on it, and what they hold.
use vstd::prelude::*;

use crate::images::layout::ImageLayout;
use crate::images::stored_image::StoredImageModel;

verus! {

/// An image takes as few tiles as cover it, each of them 126 pixels across: one row or
/// column fewer would leave pixels out. An empty image takes none.
pub proof fn lemma_tiles_cover_the_image(width: u32, height: u32)
    ensures
        ({
            let layout = ImageLayout::for_size(width, height);
            &&& layout.size_x == width
            &&& layout.size_y == height
            &&& width <= layout.tile_x * 126
            &&& height <= layout.tile_y * 126
            &&& layout.tile_x > 0 ==> (layout.tile_x - 1) * 126 < width
            &&& layout.tile_y > 0 ==> (layout.tile_y - 1) * 126 < height
        }),
        ({
            let layout = crate::model::ImageLayout::for_size(width, height);
            &&& layout.size.x == width
            &&& layout.size.y == height
            &&& width <= layout.tiles_per_row * 126
            &&& height <= layout.tiles_per_column * 126
            &&& layout.tiles_per_row > 0 ==> (layout.tiles_per_row - 1) * 126 < width
            &&& layout.tiles_per_column > 0 ==> (layout.tiles_per_column - 1) * 126 < height
        }),
{
}

/// The tile that a pixel is said to lie in is one of the image, and the pixel lies between
/// the edges of the tile.
pub proof fn lemma_pixel_lies_in_its_tile(layout: ImageLayout, x: int, y: int)
    requires
        layout.inv(),
        layout.has_pixel(x, y),
    ensures
        ({
            let index = layout.index_at(x, y);
            let left = (index % (layout.tile_x as int)) * 126;
            let top = (index / (layout.tile_x as int)) * 126;
            &&& 0 <= index < layout.tile_count()
            &&& left <= x < left + 126
            &&& top <= y < top + 126
        }),
{
    let (column, row) = (x / 126, y / 126);
    let (width, height) = (layout.tile_x as int, layout.tile_y as int);
    assert(0 <= column < width && 0 <= row < height);
    assert(0 <= row * width + column < width * height && (row * width + column) % width == column
        && (row * width + column) / width == row) by (nonlinear_arith)
        requires
            0 <= column < width,
            0 <= row < height,
    ;
}

/// What a tile holds beyond the edge of its image is zero.
pub proof fn lemma_tile_is_empty_beyond_the_image(
    image: StoredImageModel,
    index: int,
    x: int,
    y: int,
    channel: int,
)
    requires
        image.inv(),
        0 <= index < image.tiling().tile_count(),
        0 <= x < 126,
        0 <= y < 126,
        0 <= channel < 4,
        (index % (image.tiling().tile_x as int)) * 126 + x >= image.width || (index / (
        image.tiling().tile_x as int)) * 126 + y >= image.height,
    ensures
        image.tile_bytes(index)[(y * 126 + x) * 4 + channel] == 0,
        image.tile_bytes(index).len() == 126 * 126 * 4,
{
    let i = (y * 126 + x) * 4 + channel;
    assert(i / 504 == y);
    assert((i % 504) / 4 == x);
    assert(i % 4 == channel);
}

/// A tile counts as filled exactly if some pixel of the image that lies in it has a
/// channel which is not zero.
pub proof fn lemma_filled_tiles_hold_a_pixel(image: StoredImageModel, index: int)
    requires
        image.inv(),
        0 <= index < image.tiling().tile_count(),
    ensures
        image.tile_is_filled(index) <==> exists|x: int, y: int, channel: int|
            0 <= x < image.width && 0 <= y < image.height && 0 <= channel < 4
                && #[trigger] image.channel(x, y, channel) != 0 && image.tiling().index_at(x, y)
                == index,
{
    let layout = image.tiling();
    let width = layout.tile_x as int;
    crate::images::layout::lemma_tile_in_image(layout, index);
    let (left, top) = ((index % width) * 126, (index / width) * 126);
    if image.tile_is_filled(index) {
        let (x, y, channel) = choose|x: int, y: int, channel: int|
            0 <= x < 126 && 0 <= y < 126 && 0 <= channel < 4 && #[trigger] image.tile_channel(
                index,
                x,
                y,
                channel,
            ) != 0;
        assert(image.channel(left + x, top + y, channel) != 0);
        assert((left + x) / 126 == index % width);
        assert((top + y) / 126 == index / width);
    }
    if exists|x: int, y: int, channel: int|
        0 <= x < image.width && 0 <= y < image.height && 0 <= channel < 4
            && #[trigger] image.channel(x, y, channel) != 0 && image.tiling().index_at(x, y)
            == index {
        let (x, y, channel) = choose|x: int, y: int, channel: int|
            0 <= x < image.width && 0 <= y < image.height && 0 <= channel < 4
                && #[trigger] image.channel(x, y, channel) != 0 && image.tiling().index_at(x, y)
                == index;
        lemma_pixel_lies_in_its_tile(layout, x, y);
        assert(image.tile_channel(index, x - left, y - top, channel) == image.channel(
            x,
            y,
            channel,
        ));
    }
}

} // verus!
