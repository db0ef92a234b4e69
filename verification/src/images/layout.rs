//! How an image is cut into tiles.
use vstd::prelude::*;

use crate::model::div_ceil;
use crate::tiles::{GUTTER_SIZE, IMAGE_TILE_SIZE};

verus! {

/// The size of an image in pixels, and the number of tiles in each direction.
#[derive(Debug, Clone, Copy, PartialEq, Eq, Structural)]
pub struct ImageLayout {
    pub size_x: u32,
    pub size_y: u32,
    pub tile_x: u32,
    pub tile_y: u32,
}

#[derive(Debug, Clone, Copy, PartialEq, Eq, Structural)]
pub enum ImageLayoutError {
    OutOfBounds,
}

/// A rectangle of pixels around a point, both corners included. It may reach
/// beyond an image.
#[derive(Debug, Clone, Copy, PartialEq, Eq, Structural)]
pub struct PixelArea {
    pub min_x: i64,
    pub max_x: i64,
    pub min_y: i64,
    pub max_y: i64,
}

/// The tiles that an area touches, both corners included.
#[derive(Debug, Clone, Copy, PartialEq, Eq, Structural)]
pub struct AffectedTileBounds {
    pub min_tile_x: u32,
    pub max_tile_x: u32,
    pub min_tile_y: u32,
    pub max_tile_y: u32,
}

/// The upper left pixel of a tile.
#[derive(Debug, Clone, Copy, PartialEq, Eq, Structural)]
pub struct TileOrigin {
    pub x: u32,
    pub y: u32,
}

/// How far around its center a stroke of a radius can affect tiles: a tile's
/// gutter repeats the pixels next to the tile, so that these count too.
pub fn effective_radius_px(max_affected_radius_px: u32) -> (radius: u32)
    ensures
        radius == (if max_affected_radius_px + GUTTER_SIZE > u32::MAX {
            u32::MAX as int
        } else {
            max_affected_radius_px + GUTTER_SIZE
        }),
{
    max_affected_radius_px.saturating_add(GUTTER_SIZE)
}

/// `value` moved into the range from zero to `max`.
pub open spec fn clamped(value: int, max: int) -> int {
    if value < 0 {
        0
    } else if value > max {
        max
    } else {
        value
    }
}

fn clamp(value: i64, max: u32) -> (inside: u32)
    ensures
        inside == clamped(value as int, max as int),
{
    if value < 0 {
        0
    } else if value > max as i64 {
        max
    } else {
        value as u32
    }
}

impl ImageLayout {
    /// The tiles cover the image, and no tile lies outside.
    pub open spec fn inv(&self) -> bool {
        &&& self.tile_x == crate::model::parts(self.size_x as int, IMAGE_TILE_SIZE as int)
        &&& self.tile_y == crate::model::parts(self.size_y as int, IMAGE_TILE_SIZE as int)
    }

    /// The layout of an image of a size.
    pub open spec fn for_size(size_x: u32, size_y: u32) -> ImageLayout {
        ImageLayout {
            size_x,
            size_y,
            tile_x: crate::model::parts(size_x as int, IMAGE_TILE_SIZE as int) as u32,
            tile_y: crate::model::parts(size_y as int, IMAGE_TILE_SIZE as int) as u32,
        }
    }

    /// The number of tiles.
    pub open spec fn tile_count(&self) -> int {
        self.tile_x * self.tile_y
    }

    /// The index of a tile: tiles are numbered row by row.
    pub open spec fn index_of(&self, tile_x: int, tile_y: int) -> int {
        tile_y * self.tile_x + tile_x
    }

    /// The pixel lies in the image.
    pub open spec fn has_pixel(&self, x: int, y: int) -> bool {
        0 <= x < self.size_x && 0 <= y < self.size_y
    }

    /// The index of the tile that a pixel lies in.
    pub open spec fn index_at(&self, x: int, y: int) -> int {
        self.index_of(x / (IMAGE_TILE_SIZE as int), y / (IMAGE_TILE_SIZE as int))
    }

    pub fn new(size_x: u32, size_y: u32) -> (layout: Self)
        ensures
            layout == Self::for_size(size_x, size_y),
            layout.inv(),
    {
        let tile_x: u32 = div_ceil(size_x, IMAGE_TILE_SIZE);
        let tile_y: u32 = div_ceil(size_y, IMAGE_TILE_SIZE);
        ImageLayout { size_x, size_y, tile_x, tile_y }
    }

    pub fn size_x(&self) -> (size: u32)
        ensures
            size == self.size_x,
    {
        self.size_x
    }

    pub fn size_y(&self) -> (size: u32)
        ensures
            size == self.size_y,
    {
        self.size_y
    }

    pub fn tile_x(&self) -> (count: u32)
        ensures
            count == self.tile_x,
    {
        self.tile_x
    }

    pub fn tile_y(&self) -> (count: u32)
        ensures
            count == self.tile_y,
    {
        self.tile_y
    }

    /// The number of tiles.
    pub fn total_tiles(&self) -> (count: u32)
        requires
            self.tile_count() <= u32::MAX,
        ensures
            count == self.tile_count(),
    {
        self.tile_x * self.tile_y
    }

    /// The index of the tile that a pixel lies in.
    pub fn pixel_to_index(&self, x: u32, y: u32) -> (result: Result<usize, ImageLayoutError>)
        ensures
            match result {
                Ok(index) => self.has_pixel(x as int, y as int) && index == self.index_at(
                    x as int,
                    y as int,
                ),
                Err(error) => error == ImageLayoutError::OutOfBounds && (!self.has_pixel(
                    x as int,
                    y as int,
                ) || self.index_at(x as int, y as int) > u32::MAX),
            },
            self.has_pixel(x as int, y as int) && self.index_at(x as int, y as int) <= u32::MAX
                ==> result is Ok,
    {
        if x >= self.size_x || y >= self.size_y {
            return Err(ImageLayoutError::OutOfBounds);
        }
        let tile_x: u32 = x / IMAGE_TILE_SIZE;
        let tile_y: u32 = y / IMAGE_TILE_SIZE;
        match self.tile_coords_to_index(tile_x, tile_y) {
            Some(index) => Ok(index),
            None => Err(ImageLayoutError::OutOfBounds),
        }
    }

    /// The index of a tile, if it fits 32 bits.
    pub fn tile_coords_to_index(&self, tile_x: u32, tile_y: u32) -> (index: Option<usize>)
        ensures
            match index {
                Some(index) => index == self.index_of(tile_x as int, tile_y as int) && index
                    <= u32::MAX,
                None => self.index_of(tile_x as int, tile_y as int) > u32::MAX,
            },
    {
        proof {
            assert(tile_y * self.tile_x >= 0) by (nonlinear_arith);
        }
        match tile_y.checked_mul(self.tile_x) {
            None => None,
            Some(row_start) => match row_start.checked_add(tile_x) {
                None => None,
                Some(index) => Some(index as usize),
            },
        }
    }

    /// The upper left pixel of a tile.
    pub fn tile_canvas_origin(&self, tile_index: usize) -> (origin: Option<TileOrigin>)
        requires
            self.inv(),
            self.tile_count() <= u32::MAX,
        ensures
            match origin {
                Some(origin) => tile_index < self.tile_count() && origin.x == (tile_index % (
                self.tile_x as usize)) * IMAGE_TILE_SIZE && origin.y == (tile_index / (
                self.tile_x as usize)) * IMAGE_TILE_SIZE && origin.x < self.size_x && origin.y
                    < self.size_y,
                None => tile_index >= self.tile_count(),
            },
    {
        if tile_index >= self.total_tiles() as usize {
            return None;
        }
        proof {
            lemma_tile_in_image(*self, tile_index as int);
        }
        let tile_x: usize = tile_index % self.tile_x as usize;
        let tile_y: usize = tile_index / self.tile_x as usize;
        Some(
            TileOrigin {
                x: tile_x as u32 * IMAGE_TILE_SIZE,
                y: tile_y as u32 * IMAGE_TILE_SIZE,
            },
        )
    }

    /// Some pixel of the image lies in the area.
    pub open spec fn meets(&self, area: PixelArea) -> bool {
        &&& self.size_x > 0
        &&& self.size_y > 0
        &&& area.max_x >= 0
        &&& area.max_y >= 0
        &&& area.min_x < self.size_x
        &&& area.min_y < self.size_y
    }

    /// The tiles between the ones that hold the corners of the area, once
    /// these are moved into the image.
    pub open spec fn bounds_of(&self, area: PixelArea) -> AffectedTileBounds {
        AffectedTileBounds {
            min_tile_x: (clamped(area.min_x as int, self.size_x - 1) / (
            IMAGE_TILE_SIZE as int)) as u32,
            max_tile_x: (clamped(area.max_x as int, self.size_x - 1) / (
            IMAGE_TILE_SIZE as int)) as u32,
            min_tile_y: (clamped(area.min_y as int, self.size_y - 1) / (
            IMAGE_TILE_SIZE as int)) as u32,
            max_tile_y: (clamped(area.max_y as int, self.size_y - 1) / (
            IMAGE_TILE_SIZE as int)) as u32,
        }
    }

    /// The tiles that an area touches.
    pub fn affected_tile_bounds(&self, area: PixelArea) -> (bounds: Option<AffectedTileBounds>)
        ensures
            bounds == (if self.meets(area) {
                Some(self.bounds_of(area))
            } else {
                None
            }),
    {
        if self.size_x == 0 || self.size_y == 0 {
            return None;
        }
        let max_pixel_x: u32 = self.size_x - 1;
        let max_pixel_y: u32 = self.size_y - 1;
        if area.max_x < 0 || area.max_y < 0 || area.min_x > max_pixel_x as i64 || area.min_y
            > max_pixel_y as i64 {
            return None;
        }
        Some(
            AffectedTileBounds {
                min_tile_x: clamp(area.min_x, max_pixel_x) / IMAGE_TILE_SIZE,
                max_tile_x: clamp(area.max_x, max_pixel_x) / IMAGE_TILE_SIZE,
                min_tile_y: clamp(area.min_y, max_pixel_y) / IMAGE_TILE_SIZE,
                max_tile_y: clamp(area.max_y, max_pixel_y) / IMAGE_TILE_SIZE,
            },
        )
    }

    /// The tile at these coordinates is one that the area touches.
    pub open spec fn touches(&self, area: PixelArea, tile_x: int, tile_y: int) -> bool {
        let bounds = self.bounds_of(area);
        &&& self.meets(area)
        &&& bounds.min_tile_x <= tile_x <= bounds.max_tile_x
        &&& bounds.min_tile_y <= tile_y <= bounds.max_tile_y
    }

    /// Collects the indices of the tiles that an area touches, in ascending
    /// order.
    pub fn collect_affected_tile_indices(&self, area: PixelArea, output: &mut Vec<usize>)
        requires
            self.inv(),
        ensures
            forall|i: int, j: int|
                0 <= i < j < final(output)@.len() ==> final(output)@[i] < final(output)@[j],
            forall|index: usize| #[trigger]
                final(output)@.contains(index) <==> self.lists(area, index),
    {
        output.clear();
        let bounds = match self.affected_tile_bounds(area) {
            None => {
                proof {
                    assert forall|index: usize| #[trigger]
                        output@.contains(index) <==> self.lists(area, index) by {}
                }
                return ;
            },
            Some(bounds) => bounds,
        };
        proof {
            lemma_bounds_in_image(*self, area);
        }
        let mut tile_y: u32 = bounds.min_tile_y;
        while tile_y <= bounds.max_tile_y
            invariant
                self.inv(),
                self.meets(area),
                bounds == self.bounds_of(area),
                bounds.max_tile_x < self.tile_x,
                bounds.max_tile_y < self.tile_y,
                bounds.min_tile_y <= tile_y,
                ascending(output@),
                forall|index: usize| #[trigger]
                    output@.contains(index) <==> self.lists_before(
                        area,
                        index,
                        tile_y as int,
                        0,
                    ),
            decreases bounds.max_tile_y + 1 - tile_y,
        {
            let mut tile_x: u32 = bounds.min_tile_x;
            proof {
                assert forall|index: usize| #[trigger]
                    output@.contains(index) <==> self.lists_before(
                        area,
                        index,
                        tile_y as int,
                        tile_x as int,
                    ) by {
                    lemma_row_start(*self, area, index, tile_y as int);
                }
            }
            while tile_x <= bounds.max_tile_x
                invariant
                    self.inv(),
                    self.meets(area),
                    bounds == self.bounds_of(area),
                    bounds.max_tile_x < self.tile_x,
                    bounds.max_tile_y < self.tile_y,
                    bounds.min_tile_y <= tile_y <= bounds.max_tile_y,
                    bounds.min_tile_x <= tile_x,
                    ascending(output@),
                    forall|index: usize| #[trigger]
                        output@.contains(index) <==> self.lists_before(
                            area,
                            index,
                            tile_y as int,
                            tile_x as int,
                        ),
                decreases bounds.max_tile_x + 1 - tile_x,
            {
                let ghost before = output@;
                match self.tile_coords_to_index(tile_x, tile_y) {
                    Some(index) => {
                        proof {
                            assert forall|i: int| 0 <= i < before.len() implies before[i]
                                < index by {
                                assert(before.contains(before[i]));
                                lemma_listed_before_is_smaller(
                                    *self,
                                    area,
                                    before[i],
                                    tile_x as int,
                                    tile_y as int,
                                );
                            }
                        }
                        output.push(index);
                    },
                    None => {},
                }
                proof {
                    assert forall|index: usize| #[trigger]
                        output@.contains(index) <==> self.lists_before(
                            area,
                            index,
                            tile_y as int,
                            tile_x + 1,
                        ) by {
                        lemma_next_column(*self, area, index, tile_x as int, tile_y as int);
                        let here = self.index_of(tile_x as int, tile_y as int);
                        if before.contains(index) {
                            let i = before.index_of(index);
                            assert(output@[i] == index);
                        }
                        if output@.contains(index) && !before.contains(index) {
                            let i = output@.index_of(index);
                            assert(i == before.len());
                        }
                        if here == index && here <= u32::MAX {
                            assert(output@[before.len() as int] == index);
                        }
                    }
                }
                tile_x = tile_x + 1;
            }
            proof {
                assert forall|index: usize| #[trigger]
                    output@.contains(index) <==> self.lists_before(
                        area,
                        index,
                        tile_y + 1,
                        0,
                    ) by {
                    lemma_row_end(*self, area, index, tile_x as int, tile_y as int);
                }
            }
            tile_y = tile_y + 1;
        }
        proof {
            assert forall|index: usize| #[trigger]
                output@.contains(index) <==> self.lists(area, index) by {
                lemma_all_rows(*self, area, index, tile_y as int);
            }
        }
    }

    /// The index is that of a tile which the area touches, and fits 32 bits.
    pub open spec fn lists(&self, area: PixelArea, index: usize) -> bool {
        index <= u32::MAX && exists|tile_x: int, tile_y: int|
            self.touches(area, tile_x, tile_y) && #[trigger] self.index_of(tile_x, tile_y) == index
    }

    /// As `lists`, for the tiles before a position in reading order.
    spec fn lists_before(&self, area: PixelArea, index: usize, row: int, column: int) -> bool {
        index <= u32::MAX && exists|tile_x: int, tile_y: int|
            self.touches(area, tile_x, tile_y) && (tile_y < row || tile_y == row && tile_x < column)
                && #[trigger] self.index_of(tile_x, tile_y) == index
    }
}

/// Every element is larger than those before it.
pub open spec fn ascending(items: Seq<usize>) -> bool {
    forall|i: int, j: int| 0 <= i < j < items.len() ==> items[i] < items[j]
}

proof fn lemma_row_start(layout: ImageLayout, area: PixelArea, index: usize, row: int)
    requires
        layout.meets(area),
    ensures
        layout.lists_before(area, index, row, 0) == layout.lists_before(
            area,
            index,
            row,
            layout.bounds_of(area).min_tile_x as int,
        ),
{
    let first = layout.bounds_of(area).min_tile_x as int;
    if layout.lists_before(area, index, row, first) {
        let (x, y) = choose|x: int, y: int|
            layout.touches(area, x, y) && (y < row || y == row && x < first)
                && #[trigger] layout.index_of(x, y) == index;
        assert(layout.index_of(x, y) == index && y < row);
    }
    if layout.lists_before(area, index, row, 0) {
        let (x, y) = choose|x: int, y: int|
            layout.touches(area, x, y) && (y < row || y == row && x < 0)
                && #[trigger] layout.index_of(x, y) == index;
        assert(layout.index_of(x, y) == index && y < row);
    }
}

proof fn lemma_next_column(
    layout: ImageLayout,
    area: PixelArea,
    index: usize,
    column: int,
    row: int,
)
    requires
        layout.touches(area, column, row),
    ensures
        layout.lists_before(area, index, row, column + 1) == (layout.lists_before(
            area,
            index,
            row,
            column,
        ) || (index <= u32::MAX && layout.index_of(column, row) == index)),
{
    if layout.lists_before(area, index, row, column + 1) && !(layout.index_of(column, row)
        == index) {
        let (x, y) = choose|x: int, y: int|
            layout.touches(area, x, y) && (y < row || y == row && x < column + 1)
                && #[trigger] layout.index_of(x, y) == index;
        assert(x != column || y != row);
        assert(layout.index_of(x, y) == index);
    }
    if layout.lists_before(area, index, row, column) {
        let (x, y) = choose|x: int, y: int|
            layout.touches(area, x, y) && (y < row || y == row && x < column)
                && #[trigger] layout.index_of(x, y) == index;
        assert(layout.index_of(x, y) == index);
    }
}

proof fn lemma_row_end(layout: ImageLayout, area: PixelArea, index: usize, column: int, row: int)
    requires
        layout.meets(area),
        column > layout.bounds_of(area).max_tile_x,
        layout.bounds_of(area).min_tile_x >= 0,
    ensures
        layout.lists_before(area, index, row, column) == layout.lists_before(
            area,
            index,
            row + 1,
            0,
        ),
{
    if layout.lists_before(area, index, row, column) {
        let (x, y) = choose|x: int, y: int|
            layout.touches(area, x, y) && (y < row || y == row && x < column)
                && #[trigger] layout.index_of(x, y) == index;
        assert(layout.index_of(x, y) == index && y < row + 1);
    }
    if layout.lists_before(area, index, row + 1, 0) {
        let (x, y) = choose|x: int, y: int|
            layout.touches(area, x, y) && (y < row + 1 || y == row + 1 && x < 0)
                && #[trigger] layout.index_of(x, y) == index;
        assert(layout.index_of(x, y) == index && x < column);
    }
}

proof fn lemma_all_rows(layout: ImageLayout, area: PixelArea, index: usize, row: int)
    requires
        layout.meets(area),
        row > layout.bounds_of(area).max_tile_y,
    ensures
        layout.lists_before(area, index, row, 0) == layout.lists(area, index),
{
    if layout.lists(area, index) {
        let (x, y) = choose|x: int, y: int|
            layout.touches(area, x, y) && #[trigger] layout.index_of(x, y) == index;
        assert(layout.index_of(x, y) == index && y < row);
    }
    if layout.lists_before(area, index, row, 0) {
        let (x, y) = choose|x: int, y: int|
            layout.touches(area, x, y) && (y < row || y == row && x < 0)
                && #[trigger] layout.index_of(x, y) == index;
        assert(layout.index_of(x, y) == index);
    }
}

/// A tile that comes before another in reading order has a smaller index.
proof fn lemma_listed_before_is_smaller(
    layout: ImageLayout,
    area: PixelArea,
    index: usize,
    column: int,
    row: int,
)
    requires
        layout.lists_before(area, index, row, column),
        layout.bounds_of(area).max_tile_x < layout.tile_x,
        0 <= column < layout.tile_x,
    ensures
        index < layout.index_of(column, row),
{
    let (x, y) = choose|x: int, y: int|
        layout.touches(area, x, y) && (y < row || y == row && x < column)
            && #[trigger] layout.index_of(x, y) == index;
    let width = layout.tile_x as int;
    if y < row {
        assert(y * width + x < row * width + column) by (nonlinear_arith)
            requires
                y + 1 <= row,
                0 <= x < width,
                0 <= column,
        ;
    }
}

/// The tiles that an area touches are tiles of the image.
pub proof fn lemma_bounds_in_image(layout: ImageLayout, area: PixelArea)
    requires
        layout.inv(),
        layout.meets(area),
    ensures
        layout.bounds_of(area).max_tile_x < layout.tile_x,
        layout.bounds_of(area).max_tile_y < layout.tile_y,
        layout.bounds_of(area).min_tile_x < layout.tile_x,
        layout.bounds_of(area).min_tile_y < layout.tile_y,
{
}

/// An index below the number of tiles is that of a tile whose corner lies in
/// the image.
pub proof fn lemma_tile_in_image(layout: ImageLayout, index: int)
    requires
        layout.inv(),
        0 <= index < layout.tile_count(),
    ensures
        layout.tile_x > 0,
        0 <= index % (layout.tile_x as int) < layout.tile_x,
        0 <= index / (layout.tile_x as int) < layout.tile_y,
        (index % (layout.tile_x as int)) * IMAGE_TILE_SIZE < layout.size_x,
        (index / (layout.tile_x as int)) * IMAGE_TILE_SIZE < layout.size_y,
        layout.index_of(
            index % (layout.tile_x as int),
            index / (layout.tile_x as int),
        ) == index,
{
    let width = layout.tile_x as int;
    let height = layout.tile_y as int;
    assert(width > 0 && 0 <= index % width < width && 0 <= index / width < height && (index / width)
        * width + index % width == index) by (nonlinear_arith)
        requires
            0 <= index < width * height,
            width >= 0,
            height >= 0,
    ;
}

/// A tile is affected exactly if one of its pixels lies in the area.
pub proof fn lemma_touched_tiles_hold_a_pixel_of_the_area(
    layout: ImageLayout,
    area: PixelArea,
    tile_x: int,
    tile_y: int,
)
    requires
        layout.inv(),
        area.min_x <= area.max_x,
        area.min_y <= area.max_y,
    ensures
        layout.touches(area, tile_x, tile_y) <==> exists|x: int, y: int| #[trigger]
            layout.has_pixel(x, y) && area.min_x <= x <= area.max_x && area.min_y <= y <= area.max_y
                && x / (IMAGE_TILE_SIZE as int) == tile_x && y / (IMAGE_TILE_SIZE as int) == tile_y,
{
    if layout.touches(area, tile_x, tile_y) {
        let min_x = clamped(area.min_x as int, layout.size_x - 1);
        let min_y = clamped(area.min_y as int, layout.size_y - 1);
        let x = if min_x > tile_x * IMAGE_TILE_SIZE {
            min_x
        } else {
            tile_x * IMAGE_TILE_SIZE
        };
        let y = if min_y > tile_y * IMAGE_TILE_SIZE {
            min_y
        } else {
            tile_y * IMAGE_TILE_SIZE
        };
        assert(layout.has_pixel(x, y));
    }
}

} // verus!
