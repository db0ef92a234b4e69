//! A brush executor that draws pixel by pixel on anything that takes pixels.
use vstd::prelude::*;

use crate::gpu_runtime::brush_runtime::{
    BrushDrawExecutor, BrushDrawInputLayout, BrushDrawKind,
};
use crate::gpu_runtime::commands::DrawOp;
use crate::scalar::FloatBits;
use crate::tiles::TileKey;

verus! {

/// Something that takes pixels, and that a brush can read the pixels of other
/// tiles from.
///
/// The spec functions say what an implementation stands for. One that is written
/// in ordinary Rust leaves them as they are.
pub trait GenericBrushTarget {
    /// The width and the height.
    closed spec fn size(&self) -> (u32, u32) {
        arbitrary()
    }

    /// The pixels that have been written, in order.
    closed spec fn writes(&self) -> Seq<(u32, u32)> {
        arbitrary()
    }

    /// A pixel of another tile, where it has one.
    closed spec fn ref_pixel(&self, tile_key: TileKey, x: u32, y: u32) -> Option<[FloatBits; 4]> {
        arbitrary()
    }

    fn width(&self) -> (width: u32)
        ensures
            width == self.size().0,
    ;

    fn height(&self) -> (height: u32)
        ensures
            height == self.size().1,
    ;

    fn write_pixel(&mut self, x: u32, y: u32)
        requires
            x < old(self).size().0,
            y < old(self).size().1,
        ensures
            final(self).size() == old(self).size(),
            final(self).writes() == old(self).writes().push((x, y)),
    ;

    fn sample_ref_pixel(&self, tile_key: TileKey, x: u32, y: u32) -> (pixel: Option<
        [FloatBits; 4],
    >)
        ensures
            pixel == self.ref_pixel(tile_key, x, y),
    ;
}

/// The pixels of a square that lie on a target of this size.
pub open spec fn square_pixels(
    size: (u32, u32),
    center_x: int,
    center_y: int,
    radius: int,
) -> Set<(u32, u32)> {
    Set::new(
        |pixel: (u32, u32)|
            {
                &&& pixel.0 < size.0
                &&& pixel.1 < size.1
                &&& center_x - radius <= pixel.0 <= center_x + radius
                &&& center_y - radius <= pixel.1 <= center_y + radius
            },
    )
}

/// The part of the span from `low` to `high` that lies within `length` places, up
/// to but without its end.
pub open spec fn clipped(low: int, high: int, length: u32) -> (u32, u32) {
    if length == 0 || high < 0 || low >= length {
        (0, 0)
    } else {
        (
            if low < 0 {
                0
            } else {
                low as u32
            },
            if high >= length {
                length
            } else {
                (high + 1) as u32
            },
        )
    }
}

/// The pixels of a row, from left to right.
pub open spec fn row_writes(span: (u32, u32), y: u32) -> Seq<(u32, u32)> {
    Seq::new((span.1 - span.0) as nat, |i: int| ((span.0 + i) as u32, y))
}

/// The pixels of the first rows of a block, row by row from the top.
pub open spec fn rows_writes(across: (u32, u32), top: u32, rows: nat) -> Seq<(u32, u32)>
    decreases rows,
{
    if rows == 0 {
        Seq::empty()
    } else {
        rows_writes(across, top, (rows - 1) as nat) + row_writes(across, (top + rows - 1) as u32)
    }
}

/// The pixels of a square that lie on a target of this size, row by row from the
/// top and each row from left to right.
pub open spec fn square_writes(
    size: (u32, u32),
    center_x: int,
    center_y: int,
    radius: int,
) -> Seq<(u32, u32)> {
    let across = clipped(center_x - radius, center_x + radius, size.0);
    let down = clipped(center_y - radius, center_y + radius, size.1);
    rows_writes(across, down.0, (down.1 - down.0) as nat)
}

/// The part of a span that lies within `length` places.
fn clip(low: i128, high: i128, length: u32) -> (span: (u32, u32))
    requires
        low <= high,
    ensures
        span == clipped(low as int, high as int, length),
        span.0 <= span.1 <= length,
{
    if length == 0 || high < 0 || low >= length as i128 {
        return (0, 0);
    }
    let start: u32 = if low < 0 {
        0
    } else {
        low as u32
    };
    let end: u32 = if high >= length as i128 {
        length
    } else {
        high as u32 + 1
    };
    (start, end)
}

/// Writes the pixels of a square, as far as they lie on the target: each once, row
/// by row.
pub fn draw_square<Target: GenericBrushTarget>(
    target: &mut Target,
    center_x: i64,
    center_y: i64,
    radius: i64,
)
    requires
        radius >= 0,
    ensures
        final(target).size() == old(target).size(),
        final(target).writes() == old(target).writes() + square_writes(
            old(target).size(),
            center_x as int,
            center_y as int,
            radius as int,
        ),
{
    let width: u32 = target.width();
    let height: u32 = target.height();
    let (from_x, to_x) = clip(
        center_x as i128 - radius as i128,
        center_x as i128 + radius as i128,
        width,
    );
    let (from_y, to_y) = clip(
        center_y as i128 - radius as i128,
        center_y as i128 + radius as i128,
        height,
    );
    let ghost before = target.writes();
    let ghost across = (from_x, to_x);
    let mut y: u32 = from_y;
    assert(before + rows_writes(across, from_y, 0) =~= before);
    while y < to_y
        invariant
            target.size() == old(target).size(),
            target.size() == (width, height),
            across == (from_x, to_x),
            from_x <= to_x <= width,
            from_y <= y <= to_y <= height,
            target.writes() == before + rows_writes(across, from_y, (y - from_y) as nat),
        decreases to_y - y,
    {
        let mut x: u32 = from_x;
        let ghost rows = target.writes();
        assert(rows + row_writes((from_x, from_x), y) =~= rows);
        while x < to_x
            invariant
                target.size() == old(target).size(),
                target.size() == (width, height),
                from_x <= x <= to_x <= width,
                y < height,
                target.writes() == rows + row_writes((from_x, x), y),
            decreases to_x - x,
        {
            target.write_pixel(x, y);
            proof {
                assert(target.writes() =~= rows + row_writes((from_x, (x + 1) as u32), y));
            }
            x += 1;
        }
        proof {
            assert(target.writes() =~= before + rows_writes(
                across,
                from_y,
                (y + 1 - from_y) as nat,
            ));
        }
        y += 1;
    }
}

/// The writes of the first rows of a block: every pixel of them, and none twice.
proof fn lemma_rows_writes(across: (u32, u32), top: u32, rows: nat)
    requires
        across.0 <= across.1,
        top + rows <= u32::MAX,
    ensures
        forall|pixel: (u32, u32)| #[trigger]
            rows_writes(across, top, rows).contains(pixel) <==> across.0 <= pixel.0 < across.1
                && top <= pixel.1 < top + rows,
        rows_writes(across, top, rows).no_duplicates(),
    decreases rows,
{
    if rows > 0 {
        let earlier = rows_writes(across, top, (rows - 1) as nat);
        let last = (top + rows - 1) as u32;
        let row = row_writes(across, last);
        let all = rows_writes(across, top, rows);
        lemma_rows_writes(across, top, (rows - 1) as nat);
        assert forall|pixel: (u32, u32)| #[trigger] all.contains(pixel) <==> across.0 <= pixel.0
            < across.1 && top <= pixel.1 < top + rows by {
            if all.contains(pixel) {
                let at = choose|at: int| 0 <= at < all.len() && all[at] == pixel;
                if at < earlier.len() {
                    assert(earlier[at] == pixel);
                    assert(earlier.contains(pixel));
                } else {
                    assert(row[at - earlier.len()] == pixel);
                }
            }
            if across.0 <= pixel.0 < across.1 && top <= pixel.1 < top + rows {
                if pixel.1 == last {
                    assert(all[earlier.len() + (pixel.0 - across.0)] == pixel);
                } else {
                    assert(earlier.contains(pixel));
                    let at = choose|at: int| 0 <= at < earlier.len() && earlier[at] == pixel;
                    assert(all[at] == pixel);
                }
            }
        }
        assert forall|i: int, j: int|
            0 <= i < all.len() && 0 <= j < all.len() && i != j implies all[i] != all[j] by {
            if i < earlier.len() {
                assert(earlier[i] == all[i]);
                assert(earlier.contains(all[i]));
            } else {
                assert(row[i - earlier.len()] == all[i]);
            }
            if j < earlier.len() {
                assert(earlier[j] == all[j]);
                assert(earlier.contains(all[j]));
            } else {
                assert(row[j - earlier.len()] == all[j]);
            }
        }
    }
}

/// Drawing a square writes each of its pixels on the target, none of them twice,
/// and no other pixel.
pub proof fn lemma_square_is_written_once(
    size: (u32, u32),
    center_x: int,
    center_y: int,
    radius: int,
)
    requires
        radius >= 0,
    ensures
        square_writes(size, center_x, center_y, radius).no_duplicates(),
        square_writes(size, center_x, center_y, radius).to_set() == square_pixels(
            size,
            center_x,
            center_y,
            radius,
        ),
{
    let across = clipped(center_x - radius, center_x + radius, size.0);
    let down = clipped(center_y - radius, center_y + radius, size.1);
    let writes = square_writes(size, center_x, center_y, radius);
    lemma_rows_writes(across, down.0, (down.1 - down.0) as nat);
    assert forall|pixel: (u32, u32)| writes.contains(pixel) <==> square_pixels(
        size,
        center_x,
        center_y,
        radius,
    ).contains(pixel) by {}
    assert(writes.to_set() =~= square_pixels(size, center_x, center_y, radius));
}

/// The pixel of the image that a draw refers to, if it refers to one.
pub fn sample_ref_image_pixel<Target: GenericBrushTarget>(
    target: &Target,
    draw_op: &DrawOp,
    x: u32,
    y: u32,
) -> (pixel: Option<[FloatBits; 4]>)
    ensures
        pixel == (match draw_op.ref_image {
            Some(image) => target.ref_pixel(image.tile_key, x, y),
            None => None,
        }),
{
    match draw_op.ref_image {
        Some(image) => target.sample_ref_pixel(image.tile_key, x, y),
        None => None,
    }
}

#[derive(Debug, Clone, Copy, PartialEq, Eq, Structural)]
pub enum GenericBrushExecutorError {
    PixelRectDecode { input_len: usize },
}

/// Draws pixel by pixel.
#[derive(Debug, Clone, Copy, PartialEq, Eq, Structural)]
pub struct GenericBrushExecutor;

impl Default for GenericBrushExecutor {
    fn default() -> (executor: Self)
        ensures
            executor == GenericBrushExecutor,
    {
        GenericBrushExecutor
    }
}

impl<Target: GenericBrushTarget> BrushDrawExecutor<Target> for GenericBrushExecutor {
    type PipelineError = GenericBrushExecutorError;

    /// A draw takes three numbers of input, and is a square: they are its center
    /// and its radius, each rounded to a whole number of pixels, and a negative
    /// radius is zero. Any other input is refused, and the target left alone.
    open spec fn draws(
        before: (Self, Target),
        draw_op: DrawOp,
        layout: BrushDrawInputLayout,
        after: (Self, Target),
        answer: Result<(), GenericBrushExecutorError>,
    ) -> bool {
        if draw_op.input@.len() != 3 {
            &&& answer == Err::<(), GenericBrushExecutorError>(
                GenericBrushExecutorError::PixelRectDecode {
                    input_len: draw_op.input@.len() as usize,
                },
            )
            &&& after == before
        } else {
            let radius = draw_op.input@[2].nearest_whole();
            &&& answer == Ok::<(), GenericBrushExecutorError>(())
            &&& after.1.size() == before.1.size()
            &&& after.1.writes() == before.1.writes() + square_writes(
                before.1.size(),
                draw_op.input@[0].nearest_whole() as int,
                draw_op.input@[1].nearest_whole() as int,
                if radius < 0 {
                    0
                } else {
                    radius as int
                },
            )
        }
    }

    fn execute_draw(
        &mut self,
        target: &mut Target,
        draw_op: &DrawOp,
        layout: BrushDrawInputLayout,
    ) -> Result<(), GenericBrushExecutorError> {
        match layout.kind {
            BrushDrawKind::PixelRect => {
                if draw_op.input.len() != 3 {
                    return Err(
                        GenericBrushExecutorError::PixelRectDecode {
                            input_len: draw_op.input.len(),
                        },
                    );
                }
                let center_x: i64 = draw_op.input[0].round_to_i64();
                let center_y: i64 = draw_op.input[1].round_to_i64();
                let rounded: i64 = draw_op.input[2].round_to_i64();
                let radius: i64 = if rounded < 0 {
                    0
                } else {
                    rounded
                };
                draw_square(target, center_x, center_y, radius);
                Ok(())
            },
        }
    }
}

} // verus!
