//! What dabs paint, pixel by pixel.
use vstd::prelude::*;

use crate::render_protocol::BufferTileCoordinate;
use crate::renderer::brush_dabs::{
    BrushDabWriteGpu, BrushDabWriteMetaGpu, DabFootprint, DabMappingFault, DabTarget,
};
use crate::scalar::FloatBits;
use crate::tiles::{TileAddress, TileAtlasLayout};

verus! {

/// A dab covers the pixel of an atlas layer in the slot with this index: its centre
/// is given from the slot's image on, which starts one pixel within the slot, and
/// it reaches three pixels in each direction, but not out of the slot, nor out of
/// the texture.
pub open spec fn covers(
    layout: TileAtlasLayout,
    tile_index: u16,
    local_x: i32,
    local_y: i32,
    x: int,
    y: int,
) -> bool {
    let corner_x = (tile_index as int % layout.tiles_per_row as int) * 128;
    let corner_y = (tile_index as int / layout.tiles_per_row as int) * 128;
    &&& -3 <= x - (corner_x + 1 + local_x) <= 3
    &&& -3 <= y - (corner_y + 1 + local_y) <= 3
    &&& corner_x <= x < corner_x + 128
    &&& corner_y <= y < corner_y + 128
    &&& x < layout.atlas_width
    &&& y < layout.atlas_height
}

/// A pressure within `[0, 1]` is kept as it is, a larger one is one, and a negative
/// one is zero.
pub open spec fn is_kept(given: FloatBits, kept: FloatBits) -> bool {
    &&& given.0 <= 0x3f80_0000 || given.0 == 0x8000_0000 ==> kept == given
    &&& 0x3f80_0000 < given.0 < 0x8000_0000 ==> kept.0 == 0x3f80_0000
    &&& given.0 > 0x8000_0000 ==> kept.0 == 0
}

/// The write paints exactly the pixels that the dab covers in the tile at this
/// address, on the layer of the tile and with the dab's pressure.
pub open spec fn paints(
    write: BrushDabWriteGpu,
    address: TileAddress,
    layout: TileAtlasLayout,
    local_x: i32,
    local_y: i32,
    pressure: FloatBits,
) -> bool {
    &&& write.atlas_layer == address.atlas_layer
    &&& is_kept(pressure, write.pressure)
    &&& forall|x: int, y: int| #[trigger]
        covers(layout, address.tile_index, local_x, local_y, x, y) <==> write.write_min_x <= x
            <= write.write_max_x && write.write_min_y <= y <= write.write_max_y
}

/// The dab covers something of the tile at this address.
pub open spec fn is_seen(
    address: TileAddress,
    layout: TileAtlasLayout,
    local_x: i32,
    local_y: i32,
) -> bool {
    exists|x: int, y: int| covers(layout, address.tile_index, local_x, local_y, x, y)
}

/// A dab gives a write for a tile exactly if it covers something of it, and then
/// the write paints just that, with the dab's pressure.
pub proof fn lemma_dab_paints_what_it_covers(
    address: TileAddress,
    layout: TileAtlasLayout,
    local_x: i32,
    local_y: i32,
    pressure: FloatBits,
)
    requires
        layout.has_slot(address.tile_index),
        !pressure.not_a_number(),
    ensures
        match crate::renderer::brush_dabs::write_in(address, layout, local_x, local_y, pressure) {
            Some(write) => is_seen(address, layout, local_x, local_y) && paints(
                write,
                address,
                layout,
                local_x,
                local_y,
                pressure,
            ),
            None => !is_seen(address, layout, local_x, local_y),
        },
{
    let index = address.tile_index as int;
    let row = layout.tiles_per_row as int;
    assert(row > 0) by (nonlinear_arith)
        requires
            0 <= index < row * layout.tiles_per_column,
            row >= 0,
    ;
    assert(0 <= index % row <= index && 0 <= index / row <= index) by (nonlinear_arith)
        requires
            index >= 0,
            row > 0,
    ;
    let origin = layout.origin(address.tile_index);
    assert(origin.x == (index % row) * 128 && origin.y == (index / row) * 128);
    if let Some(write) = crate::renderer::brush_dabs::write_in(
        address,
        layout,
        local_x,
        local_y,
        pressure,
    ) {
        assert(covers(
            layout,
            address.tile_index,
            local_x,
            local_y,
            write.write_min_x as int,
            write.write_min_y as int,
        ));
    }
}

/// Dabs at one place with different pressures within `[0, 1]` give writes with
/// different pressures, and these are the dabs' own.
pub proof fn lemma_pressures_are_told_apart(
    address: TileAddress,
    layout: TileAtlasLayout,
    local_x: i32,
    local_y: i32,
    soft: FloatBits,
    hard: FloatBits,
)
    requires
        layout.has_slot(address.tile_index),
        soft.0 <= 0x3f80_0000 || soft.0 == 0x8000_0000,
        hard.0 <= 0x3f80_0000 || hard.0 == 0x8000_0000,
        is_seen(address, layout, local_x, local_y),
    ensures
        ({
            let softly = crate::renderer::brush_dabs::write_in(
                address,
                layout,
                local_x,
                local_y,
                soft,
            );
            let hardly = crate::renderer::brush_dabs::write_in(
                address,
                layout,
                local_x,
                local_y,
                hard,
            );
            &&& softly is Some
            &&& hardly is Some
            &&& softly->0.pressure == soft
            &&& hardly->0.pressure == hard
            &&& soft != hard ==> softly->0.pressure != hardly->0.pressure
        }),
{
    lemma_dab_paints_what_it_covers(address, layout, local_x, local_y, soft);
    lemma_dab_paints_what_it_covers(address, layout, local_x, local_y, hard);
}

/// How many tiles a dab touches.
pub open spec fn touched_count(dab: DabFootprint) -> int {
    (dab.y.local_centers@.len() * dab.x.local_centers@.len()) as int
}

/// Where the tile is that a dab touches with this number: they are numbered row by
/// row.
pub open spec fn touched_tile(dab: DabFootprint, number: int) -> BufferTileCoordinate {
    let columns = dab.x.local_centers@.len() as int;
    BufferTileCoordinate {
        tile_x: (dab.x.first_tile + number % columns) as i32,
        tile_y: (dab.y.first_tile + number / columns) as i32,
    }
}

/// The tile that a dab touches with this number is bound, and has a place.
pub open spec fn is_placed(target: DabTarget, dab: DabFootprint, number: int) -> bool {
    let tile = touched_tile(dab, number);
    target.tiles.dom().contains(tile) && target.addresses.dom().contains(target.tiles[tile])
}

/// The place of the tile that a dab touches with this number.
pub open spec fn touched_place(target: DabTarget, dab: DabFootprint, number: int) -> TileAddress {
    target.addresses[target.tiles[touched_tile(dab, number)]]
}

/// The centre of the dab from the image of the tile with this number on.
pub open spec fn center_from(dab: DabFootprint, number: int) -> (i32, i32) {
    let columns = dab.x.local_centers@.len() as int;
    (dab.x.local_centers@[number % columns], dab.y.local_centers@[number / columns])
}

/// The numbers below `count` of the tiles that the dab covers something of.
pub open spec fn seen_tiles(target: DabTarget, dab: DabFootprint, count: int) -> Seq<int>
    decreases count,
{
    if count <= 0 {
        Seq::empty()
    } else {
        let earlier = seen_tiles(target, dab, count - 1);
        let center = center_from(dab, count - 1);
        if is_seen(touched_place(target, dab, count - 1), target.layout, center.0, center.1) {
            earlier.push(count - 1)
        } else {
            earlier
        }
    }
}

/// The writes go on from the earlier ones with those of the first tiles of the dab:
/// one for each tile that the dab covers something of, in order.
pub open spec fn goes_on(
    target: DabTarget,
    dab: DabFootprint,
    count: int,
    earlier: Seq<BrushDabWriteGpu>,
    writes: Seq<BrushDabWriteGpu>,
) -> bool {
    let seen = seen_tiles(target, dab, count);
    &&& writes.len() == earlier.len() + seen.len()
    &&& forall|i: int| 0 <= i < earlier.len() ==> #[trigger] writes[i] == earlier[i]
    &&& forall|i: int|
        0 <= i < seen.len() ==> paints(
            writes[earlier.len() + i],
            touched_place(target, dab, #[trigger] seen[i]),
            target.layout,
            center_from(dab, seen[i]).0,
            center_from(dab, seen[i]).1,
            dab.pressure,
        )
    &&& forall|number: int| 0 <= number < count ==> #[trigger] is_placed(target, dab, number)
}

/// The fault is that of a tile which the dab touches: it is not bound, or has no
/// place.
pub open spec fn is_fault_of(target: DabTarget, dab: DabFootprint, fault: DabMappingFault) -> bool {
    exists|number: int|
        0 <= number < touched_count(dab) && !#[trigger] is_placed(target, dab, number)
            && match fault {
            DabMappingFault::UnboundTile { coordinate } => coordinate == touched_tile(dab, number)
                && !target.tiles.dom().contains(coordinate),
            DabMappingFault::UnresolvedTile { tile_key } => target.tiles.dom().contains(
                touched_tile(dab, number),
            ) && tile_key == target.tiles[touched_tile(dab, number)],
            _ => false,
        }
}

/// The tiles all have slots in the layout.
pub open spec fn in_layout(target: DabTarget) -> bool {
    forall|key: crate::tiles::TileKey| #[trigger]
        target.addresses.dom().contains(key) ==> target.layout.has_slot(
            target.addresses[key].tile_index,
        )
}

proof fn lemma_columns_go_on(
    target: DabTarget,
    dab: DabFootprint,
    columns: int,
    row: int,
    earlier: Seq<BrushDabWriteGpu>,
    writes: Seq<BrushDabWriteGpu>,
)
    requires
        in_layout(target),
        !dab.pressure.not_a_number(),
        0 <= columns <= dab.x.local_centers@.len(),
        0 <= row < dab.y.local_centers@.len(),
        goes_on(target, dab, row * dab.x.local_centers@.len(), earlier, writes),
    ensures
        match crate::renderer::brush_dabs::after_columns(target, dab, columns, row, Ok(writes)) {
            Ok(after) => goes_on(
                target,
                dab,
                row * dab.x.local_centers@.len() + columns,
                earlier,
                after,
            ),
            Err(fault) => is_fault_of(target, dab, fault),
        },
    decreases columns,
{
    if columns > 0 {
        let width = dab.x.local_centers@.len() as int;
        let number = row * width + columns - 1;
        lemma_columns_go_on(target, dab, columns - 1, row, earlier, writes);
        assert(number % width == columns - 1 && number / width == row && 0 <= number && number
            < dab.y.local_centers@.len() * width) by (nonlinear_arith)
            requires
                number == row * width + columns - 1,
                0 < columns <= width,
                0 <= row < dab.y.local_centers@.len(),
        ;
        if let Ok(before) = crate::renderer::brush_dabs::after_columns(
            target,
            dab,
            columns - 1,
            row,
            Ok(writes),
        ) {
            if is_placed(target, dab, number) {
                let center = center_from(dab, number);
                lemma_dab_paints_what_it_covers(
                    touched_place(target, dab, number),
                    target.layout,
                    center.0,
                    center.1,
                    dab.pressure,
                );
                let after = crate::renderer::brush_dabs::after_columns(
                    target,
                    dab,
                    columns,
                    row,
                    Ok(writes),
                )->Ok_0;
                let seen = seen_tiles(target, dab, number + 1);
                assert forall|i: int| 0 <= i < seen.len() implies paints(
                    after[earlier.len() + i],
                    touched_place(target, dab, #[trigger] seen[i]),
                    target.layout,
                    center_from(dab, seen[i]).0,
                    center_from(dab, seen[i]).1,
                    dab.pressure,
                ) by {
                    let fewer = seen_tiles(target, dab, number);
                    if i < fewer.len() {
                        assert(seen[i] == fewer[i]);
                        assert(after[earlier.len() + i] == before[earlier.len() + i]);
                    }
                }
            } else {
                assert(is_fault_of(
                    target,
                    dab,
                    crate::renderer::brush_dabs::after_columns(
                        target,
                        dab,
                        columns,
                        row,
                        Ok(writes),
                    )->Err_0,
                ));
            }
        }
    } else {
        assert(row * dab.x.local_centers@.len() + columns == row * dab.x.local_centers@.len());
    }
}

proof fn lemma_rows_go_on(
    target: DabTarget,
    dab: DabFootprint,
    rows: int,
    earlier: Seq<BrushDabWriteGpu>,
)
    requires
        in_layout(target),
        !dab.pressure.not_a_number(),
        0 <= rows <= dab.y.local_centers@.len(),
    ensures
        match crate::renderer::brush_dabs::after_rows(target, dab, rows, Ok(earlier)) {
            Ok(after) => goes_on(target, dab, rows * dab.x.local_centers@.len(), earlier, after),
            Err(fault) => is_fault_of(target, dab, fault),
        },
    decreases rows,
{
    let width = dab.x.local_centers@.len() as int;
    if rows > 0 {
        lemma_rows_go_on(target, dab, rows - 1, earlier);
        assert(rows * width == (rows - 1) * width + width) by (nonlinear_arith);
        match crate::renderer::brush_dabs::after_rows(target, dab, rows - 1, Ok(earlier)) {
            Ok(before) => {
                lemma_columns_go_on(target, dab, width, rows - 1, earlier, before);
            },
            Err(fault) => {
                crate::renderer::brush_dabs::lemma_fault_stays_columns(
                    target,
                    dab,
                    0,
                    width,
                    rows - 1,
                    Err(fault),
                );
            },
        }
    } else {
        assert(rows * width == 0) by (nonlinear_arith)
            requires
                rows == 0,
        ;
    }
}

/// The dab is made of a finite pressure, and every tile that it touches is bound and
/// has a place.
pub open spec fn is_drawable(target: DabTarget, dab: DabFootprint) -> bool {
    &&& dab.pressure.0 < 0x7f80_0000 || 0x8000_0000 <= dab.pressure.0 < 0xff80_0000
    &&& forall|number: int|
        0 <= number < touched_count(dab) ==> #[trigger] is_placed(target, dab, number)
}

/// The writes of a dab follow the earlier ones: one for each tile that the dab
/// covers something of, row by row, each painting what the dab covers of its tile.
/// There are writes exactly if the dab can be drawn.
pub proof fn lemma_dab_writes_follow_the_earlier_ones(
    target: DabTarget,
    dab: DabFootprint,
    earlier: Seq<BrushDabWriteGpu>,
)
    requires
        in_layout(target),
    ensures
        match crate::renderer::brush_dabs::after_dab(target, dab, Ok(earlier)) {
            Ok(writes) => is_drawable(target, dab) && goes_on(
                target,
                dab,
                touched_count(dab),
                earlier,
                writes,
            ),
            Err(fault) => !is_drawable(target, dab) && (is_fault_of(target, dab, fault) || (fault
                is NotFinite && !(dab.pressure.0 < 0x7f80_0000 || 0x8000_0000 <= dab.pressure.0
                < 0xff80_0000))),
        },
{
    if dab.pressure.magnitude() < crate::scalar::INFINITY_BITS {
        lemma_rows_go_on(target, dab, dab.y.local_centers@.len() as int, earlier);
    }
}

/// The writes of the dab with this number follow those of the dabs before it, and
/// are among the first of all.
pub open spec fn is_painted_in_turn(
    target: DabTarget,
    dabs: Seq<DabFootprint>,
    writes: Seq<BrushDabWriteGpu>,
    k: int,
) -> bool {
    let before = crate::renderer::brush_dabs::after_dabs(target, dabs.take(k));
    let after = crate::renderer::brush_dabs::after_dabs(target, dabs.take(k + 1));
    &&& before is Ok
    &&& after is Ok
    &&& after->Ok_0.is_prefix_of(writes)
    &&& goes_on(target, dabs[k], touched_count(dabs[k]), before->Ok_0, after->Ok_0)
}

/// The writes of several dabs are those of each dab, one dab after the other: those
/// of the first dabs come first, and those of the next dab follow them. There are
/// writes exactly if all dabs can be drawn.
pub proof fn lemma_dabs_are_painted_in_order(target: DabTarget, dabs: Seq<DabFootprint>)
    requires
        in_layout(target),
    ensures
        crate::renderer::brush_dabs::after_dabs(target, dabs) is Ok <==> (forall|k: int|
            0 <= k < dabs.len() ==> is_drawable(target, #[trigger] dabs[k])),
        dabs.len() == 0 ==> crate::renderer::brush_dabs::after_dabs(target, dabs) == Ok::<
            Seq<BrushDabWriteGpu>,
            DabMappingFault,
        >(Seq::empty()),
        crate::renderer::brush_dabs::after_dabs(target, dabs) matches Ok(writes) ==> forall|k: int|
            0 <= k < dabs.len() ==> #[trigger] is_painted_in_turn(target, dabs, writes, k),
        crate::renderer::brush_dabs::after_dabs(target, dabs) matches Err(fault) ==> exists|k: int|
            0 <= k < dabs.len() && !is_drawable(target, #[trigger] dabs[k]) && (is_fault_of(
                target,
                dabs[k],
                fault,
            ) || fault is NotFinite),
    decreases dabs.len(),
{
    if dabs.len() > 0 {
        let shorter = dabs.drop_last();
        let last = dabs.len() - 1;
        lemma_dabs_are_painted_in_order(target, shorter);
        assert(dabs.take(last) =~= shorter);
        assert(dabs.take(last + 1) =~= dabs);
        let all = crate::renderer::brush_dabs::after_dabs(target, dabs);
        match crate::renderer::brush_dabs::after_dabs(target, shorter) {
            Ok(earlier) => {
                lemma_dab_writes_follow_the_earlier_ones(target, dabs.last(), earlier);
                assert forall|k: int| 0 <= k < last implies is_drawable(
                    target,
                    #[trigger] dabs[k],
                ) by {
                    assert(is_drawable(target, shorter[k]));
                }
                if let Ok(writes) = all {
                    assert forall|k: int|
                        0 <= k < dabs.len() implies #[trigger] is_painted_in_turn(
                        target,
                        dabs,
                        writes,
                        k,
                    ) by {
                        if k < last {
                            assert(is_painted_in_turn(target, shorter, earlier, k));
                            assert(shorter[k] == dabs[k]);
                            assert(dabs.take(k) =~= shorter.take(k));
                            assert(dabs.take(k + 1) =~= shorter.take(k + 1));
                            let after = crate::renderer::brush_dabs::after_dabs(
                                target,
                                shorter.take(k + 1),
                            )->Ok_0;
                            assert(after.is_prefix_of(earlier));
                            assert forall|i: int| 0 <= i < after.len() implies after[i]
                                == writes[i] by {
                                assert(after[i] == earlier.subrange(0, after.len() as int)[i]);
                            }
                            assert(after =~= writes.subrange(0, after.len() as int));
                        } else {
                            assert(writes =~= writes.subrange(0, writes.len() as int));
                        }
                    }
                }
            },
            Err(fault) => {
                let k = choose|k: int|
                    0 <= k < shorter.len() && !is_drawable(target, #[trigger] shorter[k]) && (
                    is_fault_of(target, shorter[k], fault) || fault is NotFinite);
                assert(dabs[k] == shorter[k]);
            },
        }
    }
}

/// Each rectangle takes six words of the buffer, in the order in which the shader reads
/// them: its near corner, its far corner, its layer and its pressure.
pub proof fn lemma_words_of_rectangles(writes: Seq<BrushDabWriteGpu>, index: int)
    requires
        0 <= index < writes.len(),
    ensures
        ({
            let words = crate::renderer::brush_dabs::all_write_words(writes);
            &&& words.len() == 6 * writes.len()
            &&& words[6 * index] == writes[index].write_min_x
            &&& words[6 * index + 1] == writes[index].write_min_y
            &&& words[6 * index + 2] == writes[index].write_max_x
            &&& words[6 * index + 3] == writes[index].write_max_y
            &&& words[6 * index + 4] == writes[index].atlas_layer
            &&& words[6 * index + 5] == writes[index].pressure.0
        }),
    decreases writes.len(),
{
    let shorter = writes.drop_last();
    let before = crate::renderer::brush_dabs::all_write_words(shorter);
    if shorter.len() > 0 {
        lemma_words_of_rectangles(shorter, 0);
    } else {
        assert(before.len() == 0);
    }
    if index < shorter.len() {
        lemma_words_of_rectangles(shorter, index);
        assert(shorter[index] == writes[index]);
    }
}

/// What the shader is told of all rectangles comes in the order in which it reads it: how
/// many there are, and how wide and how high the texture is.
pub proof fn lemma_words_of_the_texture(meta: BrushDabWriteMetaGpu)
    ensures
        meta.words().len() == 4,
        meta.words()[0] == meta.dab_count,
        meta.words()[1] == meta.texture_width,
        meta.words()[2] == meta.texture_height,
        meta.words()[3] == meta.padding0,
{
}

} // verus!
