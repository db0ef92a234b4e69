//! Copying rectangular blocks of bytes between buffers that hold rows one after
//! the other.
use vstd::prelude::*;

verus! {

/// The byte in a column of a row, where each row takes `stride` bytes.
pub open spec fn at(bytes: Seq<u8>, stride: int, row: int, column: int) -> u8 {
    bytes[row * stride + column]
}

/// Where a block lies in a buffer: the bytes of each row of the buffer, and the
/// column and row of the block's corner.
#[derive(Debug, Clone, Copy, PartialEq, Eq, Structural)]
pub struct BlockOrigin {
    pub stride: usize,
    pub column: usize,
    pub row: usize,
}

/// The last byte of a block of some rows and columns lies within a buffer of
/// `len` bytes.
pub open spec fn block_fits(origin: BlockOrigin, columns: int, rows: int, len: int) -> bool {
    rows > 0 ==> (origin.row + rows - 1) * origin.stride + origin.column + columns <= len
}

/// The bytes after a block has been copied into them.
pub open spec fn copied_at(
    destination: Seq<u8>,
    to: BlockOrigin,
    source: Seq<u8>,
    from: BlockOrigin,
    columns: int,
    rows: int,
    row: int,
    column: int,
) -> u8 {
    if to.row <= row < to.row + rows && to.column <= column < to.column + columns {
        at(
            source,
            from.stride as int,
            from.row + (row - to.row),
            from.column + (column - to.column),
        )
    } else {
        at(destination, to.stride as int, row, column)
    }
}

/// Two places in rows of the same length are the same byte only if they are the
/// same place.
proof fn lemma_places_differ(stride: int, row: int, column: int, other_row: int, other_column: int)
    requires
        0 <= column < stride,
        0 <= other_column < stride,
        row * stride + column == other_row * stride + other_column,
    ensures
        row == other_row,
        column == other_column,
{
    vstd::arithmetic::div_mod::lemma_fundamental_div_mod_converse(
        row * stride + column,
        stride,
        row,
        column,
    );
    vstd::arithmetic::div_mod::lemma_fundamental_div_mod_converse(
        row * stride + column,
        stride,
        other_row,
        other_column,
    );
}

/// A place in a row before `rows` lies within `rows` rows.
proof fn lemma_place_in_rows(stride: int, row: int, rows: int)
    requires
        0 <= row < rows,
        0 <= stride,
    ensures
        0 <= row * stride,
        row * stride + stride <= rows * stride,
{
    assert(0 <= row * stride && row * stride + stride <= rows * stride) by (nonlinear_arith)
        requires
            0 <= row < rows,
            0 <= stride,
    ;
}

/// Copies a block of bytes. The buffers may have rows of different lengths. In
/// the destination the block has to lie within the rows.
pub fn copy_block(
    destination: &mut Vec<u8>,
    to: BlockOrigin,
    source: &Vec<u8>,
    from: BlockOrigin,
    columns: usize,
    rows: usize,
)
    requires
        from.stride > 0,
        to.column + columns <= to.stride,
        block_fits(to, columns as int, rows as int, old(destination)@.len() as int),
        block_fits(from, columns as int, rows as int, source@.len() as int),
    ensures
        final(destination)@.len() == old(destination)@.len(),
        forall|row: int, column: int|
            0 <= row && 0 <= column < to.stride && row * to.stride + column
                < old(destination)@.len() ==> #[trigger] at(
                final(destination)@,
                to.stride as int,
                row,
                column,
            ) == copied_at(
                old(destination)@,
                to,
                source@,
                from,
                columns as int,
                rows as int,
                row,
                column,
            ),
{
    let ghost start = destination@;
    let ghost stride = to.stride as int;
    let len: usize = destination.len();
    let source_len: usize = source.len();
    let mut row: usize = 0;
    while row < rows
        invariant
            row <= rows,
            stride == to.stride,
            from.stride > 0,
            to.column + columns <= to.stride,
            start == old(destination)@,
            destination@.len() == start.len(),
            len == start.len(),
            source_len == source@.len(),
            block_fits(to, columns as int, rows as int, start.len() as int),
            block_fits(from, columns as int, rows as int, source@.len() as int),
            forall|r: int, c: int|
                0 <= r && 0 <= c < stride && r * stride + c < start.len() ==> #[trigger] at(
                    destination@,
                    stride,
                    r,
                    c,
                ) == copied_at(start, to, source@, from, columns as int, row as int, r, c),
        decreases rows - row,
    {
        proof {
            lemma_place_in_rows(stride, to.row + row, to.row + rows);
            lemma_place_in_rows(from.stride as int, from.row + row, from.row + rows);
            assert((to.row + rows - 1) * stride == (to.row + rows) * stride - stride)
                by (nonlinear_arith);
            assert((from.row + rows - 1) * from.stride == (from.row + rows) * from.stride
                - from.stride) by (nonlinear_arith);
        }
        if columns == 0 {
            proof {
                assert forall|r: int, c: int|
                    0 <= r && 0 <= c < stride && r * stride + c < start.len() implies #[trigger] at(
                    destination@,
                    stride,
                    r,
                    c,
                ) == copied_at(start, to, source@, from, columns as int, row + 1, r, c) by {
                    assert(at(destination@, stride, r, c) == copied_at(
                        start,
                        to,
                        source@,
                        from,
                        columns as int,
                        row as int,
                        r,
                        c,
                    ));
                }
            }
            row += 1;
            continue ;
        }
        assert((to.row + row) * stride + to.column + columns <= len);
        assert((from.row + row) * from.stride + from.column + columns <= source_len);
        proof {
            lemma_row_fits(to.row + row, stride, len as int);
            lemma_row_fits(from.row + row, from.stride as int, source_len as int);
        }
        let to_row: usize = to.row + row;
        let from_row: usize = from.row + row;
        let to_start: usize = to_row * to.stride + to.column;
        let from_start: usize = from_row * from.stride + from.column;
        let mut column: usize = 0;
        while column < columns
            invariant
                row < rows,
                column <= columns,
                stride == to.stride,
                to.column + columns <= to.stride,
                start == old(destination)@,
                destination@.len() == start.len(),
                len == start.len(),
                source_len == source@.len(),
                to_row == to.row + row,
                from_row == from.row + row,
                to_start == to_row * stride + to.column,
                from_start == from_row * from.stride + from.column,
                to_start + columns <= len,
                from_start + columns <= source_len,
                forall|r: int, c: int|
                    0 <= r && 0 <= c < stride && r * stride + c < start.len() ==> #[trigger] at(
                        destination@,
                        stride,
                        r,
                        c,
                    ) == (if r == to_row && to.column <= c < to.column + column {
                        at(
                            source@,
                            from.stride as int,
                            from_row as int,
                            from.column + (c - to.column),
                        )
                    } else {
                        copied_at(start, to, source@, from, columns as int, row as int, r, c)
                    }),
            decreases columns - column,
        {
            let ghost before = destination@;
            let byte: u8 = source[from_start + column];
            destination.set(to_start + column, byte);
            proof {
                assert forall|r: int, c: int|
                    0 <= r && 0 <= c < stride && r * stride + c < start.len() implies #[trigger] at(
                    destination@,
                    stride,
                    r,
                    c,
                ) == (if r == to_row && to.column <= c < to.column + (column + 1) {
                    at(
                        source@,
                        from.stride as int,
                        from_row as int,
                        from.column + (c - to.column),
                    )
                } else {
                    copied_at(start, to, source@, from, columns as int, row as int, r, c)
                }) by {
                    if r * stride + c == to_start + column {
                        lemma_places_differ(stride, r, c, to_row as int, to.column + column);
                    } else {
                        assert(at(before, stride, r, c) == at(destination@, stride, r, c)) by {
                            lemma_index_in_range(r, stride, c);
                        }
                    }
                }
            }
            column += 1;
        }
        proof {
            assert forall|r: int, c: int|
                0 <= r && 0 <= c < stride && r * stride + c < start.len() implies #[trigger] at(
                destination@,
                stride,
                r,
                c,
            ) == copied_at(start, to, source@, from, columns as int, row + 1, r, c) by {
                assert(at(destination@, stride, r, c) == (if r == to_row && to.column <= c
                    < to.column + columns {
                    at(
                        source@,
                        from.stride as int,
                        from_row as int,
                        from.column + (c - to.column),
                    )
                } else {
                    copied_at(start, to, source@, from, columns as int, row as int, r, c)
                }));
            }
        }
        row += 1;
    }
}

proof fn lemma_index_in_range(row: int, stride: int, column: int)
    requires
        0 <= row,
        0 <= column < stride,
    ensures
        0 <= row * stride + column,
{
    assert(0 <= row * stride) by (nonlinear_arith)
        requires
            0 <= row,
            0 < stride,
    ;
}

/// If the start of a row lies within a buffer, the number of the row fits,
/// unless rows are empty.
proof fn lemma_row_fits(row: int, stride: int, len: int)
    requires
        0 <= row,
        0 <= stride,
        row * stride <= len,
    ensures
        stride > 0 ==> row <= len,
{
    if stride > 0 {
        assert(row <= row * stride) by (nonlinear_arith)
            requires
                0 <= row,
                stride >= 1,
        ;
    }
}

/// So many zero bytes.
pub fn zeroed(len: usize) -> (bytes: Vec<u8>)
    ensures
        bytes@.len() == len,
        forall|i: int| 0 <= i < len ==> bytes@[i] == 0,
{
    let mut bytes: Vec<u8> = Vec::new();
    let mut index: usize = 0;
    while index < len
        invariant
            index <= len,
            bytes@.len() == index,
            forall|i: int| 0 <= i < index ==> bytes@[i] == 0,
        decreases len - index,
    {
        bytes.push(0);
        index += 1;
    }
    bytes
}

} // verus!
