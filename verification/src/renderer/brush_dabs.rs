//! From dabs on the canvas to writes into the tiles of a stroke's buffer.
use vstd::prelude::*;

use crate::collections::KeyMap;
use crate::gpu_runtime::native_words::native_bytes;
use crate::render_protocol::BufferTileCoordinate;
use crate::renderer::brush::StrokeTiles;
use crate::scalar::FloatBits;
use crate::tiles::{
    SlotOrigin, TileAddress, TileAtlasLayout, TileKey, TILE_GUTTER, TILE_STRIDE,
};

verus! {

/// How far a dab reaches from its centre, in pixels.
pub const DEFAULT_BRUSH_RADIUS_PIXELS: i32 = 3;

/// The tiles that a dab touches along one axis: `local_centers.len()` of them,
/// from `first_tile` on, each with the dab's centre relative to the start of
/// its image.
pub struct DabSpan {
    pub first_tile: i32,
    pub local_centers: Vec<i32>,
}

impl DabSpan {
    /// Every tile of the span has an index.
    pub open spec fn inv(&self) -> bool {
        self.first_tile + self.local_centers@.len() <= i32::MAX + 1
    }
}

/// A dab: what it touches, and how hard.
pub struct DabFootprint {
    pub x: DabSpan,
    pub y: DabSpan,
    pub pressure: FloatBits,
}

/// A rectangle of an atlas layer that a dab paints.
#[derive(Debug, Clone, Copy, PartialEq)]
pub struct BrushDabWriteGpu {
    pub write_min_x: u32,
    pub write_min_y: u32,
    pub write_max_x: u32,
    pub write_max_y: u32,
    pub atlas_layer: u32,
    pub pressure: FloatBits,
}

/// Why the dabs of a chunk cannot be drawn.
#[derive(Debug, Clone, Copy, PartialEq, Eq, Structural)]
pub enum DabMappingFault {
    /// A dab is not made of finite numbers.
    NotFinite,
    /// A dab touches a tile that is not bound.
    UnboundTile { coordinate: BufferTileCoordinate },
    /// A bound tile has no place in the atlas.
    UnresolvedTile { tile_key: TileKey },
    /// The writes do not fit into the device's buffer.
    TooManyWrites,
}

/// The pixel `p` of an axis is painted by a dab around `center`, in a slot that
/// starts at `slot_min`, in a texture of the size `texture_size`.
pub open spec fn painted(p: int, center: int, slot_min: int, texture_size: int) -> bool {
    &&& center - DEFAULT_BRUSH_RADIUS_PIXELS <= p <= center + DEFAULT_BRUSH_RADIUS_PIXELS
    &&& slot_min <= p < slot_min + TILE_STRIDE
    &&& 0 <= p < texture_size
}

/// The first pixel that is painted, if one is.
pub open spec fn painted_min(center: int, slot_min: int) -> int {
    if center - DEFAULT_BRUSH_RADIUS_PIXELS >= slot_min {
        center - DEFAULT_BRUSH_RADIUS_PIXELS
    } else {
        slot_min
    }
}

/// The last pixel that is painted, if one is.
pub open spec fn painted_max(center: int, slot_min: int, texture_size: int) -> int {
    let reach = center + DEFAULT_BRUSH_RADIUS_PIXELS;
    let slot_max = slot_min + TILE_STRIDE - 1;
    let within_slot = if reach <= slot_max {
        reach
    } else {
        slot_max
    };
    if within_slot <= texture_size - 1 {
        within_slot
    } else {
        texture_size - 1
    }
}

/// A dab paints exactly the pixels between the first and the last.
pub proof fn lemma_painted_range(p: int, center: int, slot_min: int, texture_size: int)
    requires
        slot_min >= 0,
    ensures
        painted(p, center, slot_min, texture_size) <==> painted_min(center, slot_min) <= p
            <= painted_max(center, slot_min, texture_size),
{
}

/// The pixels of one axis that a dab paints: first and last.
fn clip_dab_axis(center: i64, slot_min: u32, texture_size: u32) -> (range: Option<(u32, u32)>)
    requires
        i64::MIN + 3 <= center <= i64::MAX - 3,
        slot_min + TILE_STRIDE <= u32::MAX,
    ensures
        match range {
            Some((first, last)) => first <= last && first == painted_min(
                center as int,
                slot_min as int,
            ) && last == painted_max(center as int, slot_min as int, texture_size as int),
            None => painted_min(center as int, slot_min as int) > painted_max(
                center as int,
                slot_min as int,
                texture_size as int,
            ),
        },
{
    let raw_min: i64 = center - DEFAULT_BRUSH_RADIUS_PIXELS as i64;
    let raw_max: i64 = center + DEFAULT_BRUSH_RADIUS_PIXELS as i64;
    let slot_first: i64 = slot_min as i64;
    let slot_last: i64 = slot_first + TILE_STRIDE as i64 - 1;
    let texture_last: i64 = texture_size as i64 - 1;
    let first: i64 = if raw_min >= slot_first {
        raw_min
    } else {
        slot_first
    };
    let within_slot: i64 = if raw_max <= slot_last {
        raw_max
    } else {
        slot_last
    };
    let last: i64 = if within_slot <= texture_last {
        within_slot
    } else {
        texture_last
    };
    if first > last {
        return None;
    }
    Some((first as u32, last as u32))
}

/// The rectangle that a dab paints in one tile, or nothing.
pub open spec fn write_in(
    address: TileAddress,
    layout: TileAtlasLayout,
    local_x: i32,
    local_y: i32,
    pressure: FloatBits,
) -> Option<BrushDabWriteGpu> {
    let origin = layout.origin(address.tile_index);
    let center_x = origin.x + TILE_GUTTER + local_x;
    let center_y = origin.y + TILE_GUTTER + local_y;
    let min_x = painted_min(center_x, origin.x as int);
    let min_y = painted_min(center_y, origin.y as int);
    let max_x = painted_max(center_x, origin.x as int, layout.atlas_width as int);
    let max_y = painted_max(center_y, origin.y as int, layout.atlas_height as int);
    if min_x > max_x || min_y > max_y {
        None
    } else {
        Some(
            BrushDabWriteGpu {
                write_min_x: min_x as u32,
                write_min_y: min_y as u32,
                write_max_x: max_x as u32,
                write_max_y: max_y as u32,
                atlas_layer: address.atlas_layer,
                pressure: pressure.unit_clamped(),
            },
        )
    }
}

/// The rectangle lies within the slot at `origin`.
pub open spec fn within_slot(write: BrushDabWriteGpu, origin: SlotOrigin) -> bool {
    &&& origin.x <= write.write_min_x
    &&& write.write_max_x < origin.x + TILE_STRIDE
    &&& origin.y <= write.write_min_y
    &&& write.write_max_y < origin.y + TILE_STRIDE
}

/// What a dab paints in a tile lies within the tile's slot: no dab bleeds into
/// a neighbour.
pub proof fn lemma_write_stays_in_slot(
    address: TileAddress,
    layout: TileAtlasLayout,
    local_x: i32,
    local_y: i32,
    pressure: FloatBits,
)
    requires
        layout.has_slot(address.tile_index),
    ensures
        write_in(address, layout, local_x, local_y, pressure) matches Some(write) ==> within_slot(
            write,
            layout.origin(address.tile_index),
        ) && write.write_max_x < layout.atlas_width && write.write_max_y < layout.atlas_height,
{
    lemma_origin_is_small(layout, address.tile_index);
}

/// A slot's corner is far from the largest number.
proof fn lemma_origin_is_small(layout: TileAtlasLayout, tile_index: u16)
    requires
        layout.has_slot(tile_index),
    ensures
        layout.origin(tile_index).x + 2 * TILE_STRIDE <= u32::MAX,
        layout.origin(tile_index).y + 2 * TILE_STRIDE <= u32::MAX,
{
    let index = tile_index as int;
    let row = layout.tiles_per_row as int;
    assert(row > 0) by (nonlinear_arith)
        requires
            index >= 0,
            row >= 0,
            index < row * layout.tiles_per_column,
    ;
    assert(0 <= index % row <= index && 0 <= index / row <= index) by (nonlinear_arith)
        requires
            index >= 0,
            row > 0,
    ;
}

/// Tells whether a rectangle of an atlas layer lies within the slot of a tile.
pub fn brush_dab_write_region_in_slot(
    write_min_x: u32,
    write_min_y: u32,
    write_max_x: u32,
    write_max_y: u32,
    tile_address: TileAddress,
    atlas_layout: TileAtlasLayout,
) -> (inside: bool)
    requires
        atlas_layout.has_slot(tile_address.tile_index),
    ensures
        inside == within_slot(
            (BrushDabWriteGpu {
                write_min_x,
                write_min_y,
                write_max_x,
                write_max_y,
                atlas_layer: tile_address.atlas_layer,
                pressure: FloatBits(0),
            }),
            atlas_layout.origin(tile_address.tile_index),
        ),
{
    let origin = atlas_layout.slot_origin(tile_address.tile_index);
    let slot_max_x: i64 = origin.x as i64 + TILE_STRIDE as i64 - 1;
    let slot_max_y: i64 = origin.y as i64 + TILE_STRIDE as i64 - 1;
    !(write_min_x < origin.x || write_max_x as i64 > slot_max_x || write_min_y < origin.y
        || write_max_y as i64 > slot_max_y)
}

/// What a dab paints in one tile.
fn dab_write_in(
    address: TileAddress,
    layout: TileAtlasLayout,
    local_x: i32,
    local_y: i32,
    pressure: FloatBits,
) -> (write: Option<BrushDabWriteGpu>)
    requires
        layout.has_slot(address.tile_index),
        !pressure.not_a_number(),
    ensures
        write == write_in(address, layout, local_x, local_y, pressure),
{
    proof {
        lemma_origin_is_small(layout, address.tile_index);
    }
    let origin = layout.slot_origin(address.tile_index);
    let center_x: i64 = origin.x as i64 + TILE_GUTTER as i64 + local_x as i64;
    let center_y: i64 = origin.y as i64 + TILE_GUTTER as i64 + local_y as i64;
    match (
        clip_dab_axis(center_x, origin.x, layout.atlas_width),
        clip_dab_axis(center_y, origin.y, layout.atlas_height),
    ) {
        (Some((min_x, max_x)), Some((min_y, max_y))) => Some(
            BrushDabWriteGpu {
                write_min_x: min_x,
                write_min_y: min_y,
                write_max_x: max_x,
                write_max_y: max_y,
                atlas_layer: address.atlas_layer,
                pressure: pressure.clamp_to_unit(),
            },
        ),
        _ => None,
    }
}

/// What the writes of a dab depend on besides the dab.
pub struct DabTarget {
    pub tiles: Map<BufferTileCoordinate, TileKey>,
    pub addresses: Map<TileKey, TileAddress>,
    pub layout: TileAtlasLayout,
}

/// The writes so far, or the fault that ended them.
pub type DabWrites = Result<Seq<BrushDabWriteGpu>, DabMappingFault>;

/// The writes after the tile at the column `column` and the row `row` of a dab.
pub open spec fn after_tile(
    target: DabTarget,
    dab: DabFootprint,
    column: int,
    row: int,
    writes: DabWrites,
) -> DabWrites {
    let coordinate = BufferTileCoordinate {
        tile_x: (dab.x.first_tile + column) as i32,
        tile_y: (dab.y.first_tile + row) as i32,
    };
    match writes {
        Err(fault) => Err(fault),
        Ok(earlier) => if !target.tiles.dom().contains(coordinate) {
            Err(DabMappingFault::UnboundTile { coordinate })
        } else if !target.addresses.dom().contains(target.tiles[coordinate]) {
            Err(DabMappingFault::UnresolvedTile { tile_key: target.tiles[coordinate] })
        } else {
            match write_in(
                target.addresses[target.tiles[coordinate]],
                target.layout,
                dab.x.local_centers@[column],
                dab.y.local_centers@[row],
                dab.pressure,
            ) {
                Some(write) => Ok(earlier.push(write)),
                None => Ok(earlier),
            }
        },
    }
}

/// The writes after the first `columns` tiles of the row `row` of a dab.
pub open spec fn after_columns(
    target: DabTarget,
    dab: DabFootprint,
    columns: int,
    row: int,
    writes: DabWrites,
) -> DabWrites
    decreases columns,
{
    if columns <= 0 {
        writes
    } else {
        after_tile(
            target,
            dab,
            columns - 1,
            row,
            after_columns(target, dab, columns - 1, row, writes),
        )
    }
}

/// The writes after the first `rows` rows of a dab.
pub open spec fn after_rows(
    target: DabTarget,
    dab: DabFootprint,
    rows: int,
    writes: DabWrites,
) -> DabWrites
    decreases rows,
{
    if rows <= 0 {
        writes
    } else {
        after_columns(
            target,
            dab,
            dab.x.local_centers@.len() as int,
            rows - 1,
            after_rows(target, dab, rows - 1, writes),
        )
    }
}

/// The writes after a dab: tile by tile, row by row.
pub open spec fn after_dab(
    target: DabTarget,
    dab: DabFootprint,
    writes: DabWrites,
) -> DabWrites {
    match writes {
        Err(fault) => Err(fault),
        Ok(_) => if dab.pressure.magnitude() >= crate::scalar::INFINITY_BITS {
            Err(DabMappingFault::NotFinite)
        } else {
            after_rows(target, dab, dab.y.local_centers@.len() as int, writes)
        },
    }
}

/// The writes of several dabs, in order.
pub open spec fn after_dabs(target: DabTarget, dabs: Seq<DabFootprint>) -> DabWrites
    decreases dabs.len(),
{
    if dabs.len() == 0 {
        Ok(Seq::empty())
    } else {
        after_dab(target, dabs.last(), after_dabs(target, dabs.drop_last()))
    }
}

/// Once a fault has ended the writes, nothing changes any more.
pub proof fn lemma_fault_stays_columns(
    target: DabTarget,
    dab: DabFootprint,
    few: int,
    many: int,
    row: int,
    writes: DabWrites,
)
    requires
        0 <= few <= many,
        after_columns(target, dab, few, row, writes) is Err,
    ensures
        after_columns(target, dab, many, row, writes) == after_columns(
            target,
            dab,
            few,
            row,
            writes,
        ),
    decreases many,
{
    if few < many {
        lemma_fault_stays_columns(target, dab, few, many - 1, row, writes);
    }
}

proof fn lemma_fault_stays_rows(
    target: DabTarget,
    dab: DabFootprint,
    few: int,
    many: int,
    writes: DabWrites,
)
    requires
        0 <= few <= many,
        after_rows(target, dab, few, writes) is Err,
    ensures
        after_rows(target, dab, many, writes) == after_rows(target, dab, few, writes),
    decreases many,
{
    if few < many {
        lemma_fault_stays_rows(target, dab, few, many - 1, writes);
        let inner = after_rows(target, dab, many - 1, writes);
        lemma_fault_stays_columns(
            target,
            dab,
            0,
            dab.x.local_centers@.len() as int,
            many - 1,
            inner,
        );
    }
}

proof fn lemma_fault_stays_dabs(target: DabTarget, few: Seq<DabFootprint>, many: Seq<DabFootprint>)
    requires
        few.len() <= many.len(),
        few == many.take(few.len() as int),
        after_dabs(target, few) is Err,
    ensures
        after_dabs(target, many) == after_dabs(target, few),
    decreases many.len(),
{
    if few.len() == many.len() {
        assert(few =~= many);
    } else {
        assert(many.drop_last().take(few.len() as int) =~= few);
        lemma_fault_stays_dabs(target, few, many.drop_last());
    }
}

/// Appends the writes of one dab. A dab paints a rectangle in each tile that
/// it touches, unless nothing of it is left there after clipping.
fn append_dab_write_commands(
    dab: &DabFootprint,
    bound_tile_keys: &StrokeTiles,
    addresses: &KeyMap<TileKey, TileAddress>,
    atlas_layout: TileAtlasLayout,
    mapped_dabs: &mut Vec<BrushDabWriteGpu>,
) -> (result: Result<(), DabMappingFault>)
    requires
        dab.x.inv(),
        dab.y.inv(),
        forall|key: TileKey| #[trigger]
            addresses@.dom().contains(key) ==> atlas_layout.has_slot(addresses@[key].tile_index),
    ensures
        match after_dab(
            (DabTarget { tiles: bound_tile_keys@, addresses: addresses@, layout: atlas_layout }),
            *dab,
            Ok(old(mapped_dabs)@),
        ) {
            Ok(writes) => result is Ok && final(mapped_dabs)@ == writes,
            Err(fault) => result == Err::<(), _>(fault),
        },
{
    let ghost target = DabTarget {
        tiles: bound_tile_keys@,
        addresses: addresses@,
        layout: atlas_layout,
    };
    let ghost start: DabWrites = Ok(mapped_dabs@);
    if !dab.pressure.is_finite() {
        return Err(DabMappingFault::NotFinite);
    }
    let rows: usize = dab.y.local_centers.len();
    let columns: usize = dab.x.local_centers.len();
    let mut row: usize = 0;
    while row < rows
        invariant
            row <= rows,
            rows == dab.y.local_centers@.len(),
            columns == dab.x.local_centers@.len(),
            dab.x.inv(),
            dab.y.inv(),
            !dab.pressure.not_a_number(),
            forall|key: TileKey| #[trigger]
                addresses@.dom().contains(key) ==> atlas_layout.has_slot(
                    addresses@[key].tile_index,
                ),
            target == (DabTarget {
                tiles: bound_tile_keys@,
                addresses: addresses@,
                layout: atlas_layout,
            }),
            after_rows(target, *dab, row as int, start) == Ok::<_, DabMappingFault>(mapped_dabs@),
            after_dab(target, *dab, start) == after_rows(target, *dab, rows as int, start),
            start == Ok::<_, DabMappingFault>(old(mapped_dabs)@),
        decreases rows - row,
    {
        let ghost row_start: DabWrites = Ok(mapped_dabs@);
        let mut column: usize = 0;
        while column < columns
            invariant
                row < rows,
                column <= columns,
                rows == dab.y.local_centers@.len(),
                columns == dab.x.local_centers@.len(),
                dab.x.inv(),
                dab.y.inv(),
                !dab.pressure.not_a_number(),
                forall|key: TileKey| #[trigger]
                    addresses@.dom().contains(key) ==> atlas_layout.has_slot(
                        addresses@[key].tile_index,
                    ),
                target == (DabTarget {
                    tiles: bound_tile_keys@,
                    addresses: addresses@,
                    layout: atlas_layout,
                }),
                after_rows(target, *dab, row as int, start) == row_start,
                after_columns(target, *dab, column as int, row as int, row_start) == Ok::<
                    _,
                    DabMappingFault,
                >(mapped_dabs@),
                after_dab(target, *dab, start) == after_rows(target, *dab, rows as int, start),
                start == Ok::<_, DabMappingFault>(old(mapped_dabs)@),
            decreases columns - column,
        {
            let coordinate = BufferTileCoordinate {
                tile_x: (dab.x.first_tile as i64 + column as i64) as i32,
                tile_y: (dab.y.first_tile as i64 + row as i64) as i32,
            };
            proof {
                let next = after_columns(target, *dab, column + 1, row as int, row_start);
                assert(next == after_tile(
                    target,
                    *dab,
                    column as int,
                    row as int,
                    Ok(mapped_dabs@),
                ));
                if next is Err {
                    lemma_fault_stays_columns(
                        target,
                        *dab,
                        column + 1,
                        columns as int,
                        row as int,
                        row_start,
                    );
                    assert(after_rows(target, *dab, row + 1, start) == next);
                    lemma_fault_stays_rows(target, *dab, row + 1, rows as int, start);
                }
            }
            let tile_key = match bound_tile_keys.get(coordinate) {
                Some(key) => *key,
                None => {
                    return Err(DabMappingFault::UnboundTile { coordinate });
                },
            };
            let address = match addresses.get(tile_key) {
                Some(address) => *address,
                None => {
                    return Err(DabMappingFault::UnresolvedTile { tile_key });
                },
            };
            match dab_write_in(
                address,
                atlas_layout,
                dab.x.local_centers[column],
                dab.y.local_centers[row],
                dab.pressure,
            ) {
                Some(write) => {
                    mapped_dabs.push(write);
                },
                None => {},
            }
            column += 1;
        }
        row += 1;
    }
    Ok(())
}

/// The writes of all dabs of a chunk, which must fit into a buffer of
/// `capacity` writes.
pub fn map_chunk_dabs(
    dabs: &Vec<DabFootprint>,
    bound_tile_keys: &StrokeTiles,
    addresses: &KeyMap<TileKey, TileAddress>,
    atlas_layout: TileAtlasLayout,
    capacity: usize,
) -> (result: Result<Vec<BrushDabWriteGpu>, DabMappingFault>)
    requires
        forall|i: int| 0 <= i < dabs@.len() ==> (#[trigger] dabs@[i]).x.inv() && dabs@[i].y.inv(),
        forall|key: TileKey| #[trigger]
            addresses@.dom().contains(key) ==> atlas_layout.has_slot(addresses@[key].tile_index),
    ensures
        match after_dabs(
            (DabTarget { tiles: bound_tile_keys@, addresses: addresses@, layout: atlas_layout }),
            dabs@,
        ) {
            Err(fault) => result == Err::<Vec<BrushDabWriteGpu>, _>(fault),
            Ok(writes) => if writes.len() > capacity {
                result == Err::<Vec<BrushDabWriteGpu>, _>(DabMappingFault::TooManyWrites)
            } else {
                result is Ok && result->Ok_0@ == writes
            },
        },
{
    let ghost target = DabTarget {
        tiles: bound_tile_keys@,
        addresses: addresses@,
        layout: atlas_layout,
    };
    let mut mapped_dabs: Vec<BrushDabWriteGpu> = Vec::new();
    let mut index: usize = 0;
    while index < dabs.len()
        invariant
            index <= dabs@.len(),
            forall|i: int|
                0 <= i < dabs@.len() ==> (#[trigger] dabs@[i]).x.inv() && dabs@[i].y.inv(),
            forall|key: TileKey| #[trigger]
                addresses@.dom().contains(key) ==> atlas_layout.has_slot(
                    addresses@[key].tile_index,
                ),
            target == (DabTarget {
                tiles: bound_tile_keys@,
                addresses: addresses@,
                layout: atlas_layout,
            }),
            after_dabs(target, dabs@.take(index as int)) == Ok::<_, DabMappingFault>(mapped_dabs@),
        decreases dabs@.len() - index,
    {
        proof {
            let longer = dabs@.take(index + 1);
            assert(longer.drop_last() =~= dabs@.take(index as int));
            if after_dabs(target, longer) is Err {
                lemma_fault_stays_dabs(target, longer, dabs@);
            }
        }
        match append_dab_write_commands(
            &dabs[index],
            bound_tile_keys,
            addresses,
            atlas_layout,
            &mut mapped_dabs,
        ) {
            Ok(()) => {},
            Err(fault) => {
                return Err(fault);
            },
        }
        index += 1;
    }
    assert(dabs@.take(index as int) =~= dabs@);
    if mapped_dabs.len() > capacity {
        return Err(DabMappingFault::TooManyWrites);
    }
    Ok(mapped_dabs)
}

/// The words of a rectangle that is painted.
pub open spec fn write_words(write: BrushDabWriteGpu) -> Seq<u32> {
    seq![
        write.write_min_x,
        write.write_min_y,
        write.write_max_x,
        write.write_max_y,
        write.atlas_layer,
        write.pressure.0,
    ]
}

/// The words of rectangles that are painted, one after the other.
pub open spec fn all_write_words(writes: Seq<BrushDabWriteGpu>) -> Seq<u32>
    decreases writes.len(),
{
    if writes.len() == 0 {
        Seq::empty()
    } else {
        all_write_words(writes.drop_last()) + write_words(writes.last())
    }
}

/// What the device is told of the rectangles: how many there are, and how large
/// the texture is that they are painted on.
#[derive(Debug, Clone, Copy, PartialEq, Eq, Structural)]
pub struct BrushDabWriteMetaGpu {
    pub dab_count: u32,
    pub texture_width: u32,
    pub texture_height: u32,
    pub padding0: u32,
}

impl BrushDabWriteMetaGpu {
    pub open spec fn words(&self) -> Seq<u32> {
        seq![self.dab_count, self.texture_width, self.texture_height, self.padding0]
    }
}

/// What the device needs to paint the dabs of a chunk: the contents of two
/// buffers, and how many workgroups it starts.
#[derive(Debug, PartialEq, Eq)]
pub struct BrushChunkDispatch {
    pub write_bytes: Vec<u8>,
    pub meta_bytes: Vec<u8>,
    pub workgroups: u32,
}

/// The words of rectangles that are painted.
fn collect_write_words(writes: &Vec<BrushDabWriteGpu>) -> (words: Vec<u32>)
    ensures
        words@ == all_write_words(writes@),
{
    let mut words: Vec<u32> = Vec::new();
    let mut index: usize = 0;
    assert(writes@.take(0) =~= Seq::<BrushDabWriteGpu>::empty());
    while index < writes.len()
        invariant
            index <= writes@.len(),
            words@ == all_write_words(writes@.take(index as int)),
        decreases writes@.len() - index,
    {
        let write = writes[index];
        let ghost before = words@;
        words.push(write.write_min_x);
        words.push(write.write_min_y);
        words.push(write.write_max_x);
        words.push(write.write_max_y);
        words.push(write.atlas_layer);
        words.push(write.pressure.0);
        proof {
            assert(words@ =~= before + write_words(write));
            assert(writes@.take(index + 1).drop_last() =~= writes@.take(index as int));
            assert(writes@.take(index + 1).last() == write);
        }
        index += 1;
    }
    assert(writes@.take(index as int) =~= writes@);
    words
}

/// How the dabs of a chunk are painted, one workgroup for each rectangle.
/// Without a rectangle there is nothing to do.
pub fn dispatch_brush_chunk(
    dabs: &Vec<DabFootprint>,
    bound_tile_keys: &StrokeTiles,
    addresses: &KeyMap<TileKey, TileAddress>,
    atlas_layout: TileAtlasLayout,
    capacity: usize,
) -> (result: Result<Option<BrushChunkDispatch>, DabMappingFault>)
    requires
        capacity <= u32::MAX,
        forall|i: int| 0 <= i < dabs@.len() ==> (#[trigger] dabs@[i]).x.inv() && dabs@[i].y.inv(),
        forall|key: TileKey| #[trigger]
            addresses@.dom().contains(key) ==> atlas_layout.has_slot(addresses@[key].tile_index),
    ensures
        match after_dabs(
            (DabTarget { tiles: bound_tile_keys@, addresses: addresses@, layout: atlas_layout }),
            dabs@,
        ) {
            Err(fault) => result == Err::<Option<BrushChunkDispatch>, _>(fault),
            Ok(writes) => if writes.len() == 0 {
                result == Ok::<Option<BrushChunkDispatch>, DabMappingFault>(None)
            } else if writes.len() > capacity {
                result == Err::<Option<BrushChunkDispatch>, _>(DabMappingFault::TooManyWrites)
            } else {
                &&& result matches Ok(Some(dispatch))
                &&& crate::gpu_runtime::native_words::natively_laid_out(
                    dispatch.write_bytes@,
                    all_write_words(writes),
                )
                &&& crate::gpu_runtime::native_words::natively_laid_out(
                    dispatch.meta_bytes@,
                    (BrushDabWriteMetaGpu {
                        dab_count: writes.len() as u32,
                        texture_width: atlas_layout.atlas_width,
                        texture_height: atlas_layout.atlas_height,
                        padding0: 0,
                    }).words(),
                )
                &&& dispatch.workgroups == writes.len()
            },
        },
{
    let mapped_dabs = match map_chunk_dabs(
        dabs,
        bound_tile_keys,
        addresses,
        atlas_layout,
        capacity,
    ) {
        Ok(writes) => writes,
        Err(fault) => {
            return Err(fault);
        },
    };
    if mapped_dabs.len() == 0 {
        return Ok(None);
    }
    let dab_count: u32 = mapped_dabs.len() as u32;
    let mut meta: Vec<u32> = Vec::new();
    meta.push(dab_count);
    meta.push(atlas_layout.atlas_width);
    meta.push(atlas_layout.atlas_height);
    meta.push(0);
    proof {
        let gpu = BrushDabWriteMetaGpu {
            dab_count,
            texture_width: atlas_layout.atlas_width,
            texture_height: atlas_layout.atlas_height,
            padding0: 0,
        };
        assert(meta@ =~= gpu.words());
    }
    Ok(
        Some(
            BrushChunkDispatch {
                write_bytes: native_bytes(&collect_write_words(&mapped_dabs)),
                meta_bytes: native_bytes(&meta),
                workgroups: dab_count,
            },
        ),
    )
}

/// A dab adds at most one write for each tile that it touches.
proof fn lemma_dab_write_count(target: DabTarget, dab: DabFootprint, rows: int, writes: DabWrites)
    requires
        rows >= 0,
        writes is Ok,
    ensures
        after_rows(target, dab, rows, writes) matches Ok(after) ==> after.len() <= writes->Ok_0.len()
            + rows * dab.x.local_centers@.len(),
    decreases rows,
{
    if rows > 0 {
        lemma_dab_write_count(target, dab, rows - 1, writes);
        let inner = after_rows(target, dab, rows - 1, writes);
        let columns = dab.x.local_centers@.len() as int;
        if inner is Ok {
            lemma_row_write_count(target, dab, columns, rows - 1, inner);
        } else {
            lemma_fault_stays_columns(target, dab, 0, columns, rows - 1, inner);
        }
        assert(rows * columns == (rows - 1) * columns + columns) by (nonlinear_arith);
    }
}

proof fn lemma_row_write_count(
    target: DabTarget,
    dab: DabFootprint,
    columns: int,
    row: int,
    writes: DabWrites,
)
    requires
        columns >= 0,
        writes is Ok,
    ensures
        after_columns(target, dab, columns, row, writes) matches Ok(after) ==> after.len()
            <= writes->Ok_0.len() + columns,
    decreases columns,
{
    if columns > 0 {
        lemma_row_write_count(target, dab, columns - 1, row, writes);
    }
}

/// Dabs that touch at most two tiles along each axis need at most four writes
/// each.
pub proof fn lemma_four_writes_per_dab(target: DabTarget, dabs: Seq<DabFootprint>)
    requires
        forall|i: int|
            0 <= i < dabs.len() ==> (#[trigger] dabs[i]).x.local_centers@.len() <= 2
                && dabs[i].y.local_centers@.len() <= 2,
    ensures
        after_dabs(target, dabs) matches Ok(writes) ==> writes.len() <= 4 * dabs.len(),
    decreases dabs.len(),
{
    if dabs.len() > 0 {
        let shorter = dabs.drop_last();
        assert forall|i: int| 0 <= i < shorter.len() implies (
        #[trigger] shorter[i]).x.local_centers@.len() <= 2 && shorter[i].y.local_centers@.len()
            <= 2 by {
            assert(shorter[i] == dabs[i]);
        }
        lemma_four_writes_per_dab(target, shorter);
        let dab = dabs.last();
        let rows = dab.y.local_centers@.len() as int;
        let columns = dab.x.local_centers@.len() as int;
        let earlier = after_dabs(target, shorter);
        if earlier is Ok {
            lemma_dab_write_count(target, dab, rows, earlier);
            assert(rows * columns <= 4) by (nonlinear_arith)
                requires
                    0 <= rows <= 2,
                    0 <= columns <= 2,
            ;
        }
    }
}

} // verus!
