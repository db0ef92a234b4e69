//! Images made of tiles, with a record of the tiles that have changed.
use bitvec::order::Lsb0;
use bitvec::vec::BitVec;
use vstd::prelude::*;

use crate::tiles::TILE_IMAGE;

verus! {

/// A vector of bits: a `bitvec::vec::BitVec` over `usize` elements, whose bits
/// are numbered from the least significant one.
#[verifier::external_body]
pub struct TileBits {
    bits: BitVec<usize, Lsb0>,
}

/// The bits that a vector of bits holds.
pub uninterp spec fn bits_of(bits: TileBits) -> Seq<bool>;

/// `BitVec::repeat`: a vector that holds `len` copies of `bit`. A vector of
/// bits holds at most an eighth as many bits as there are addresses.
#[verifier::external_body]
fn repeated_bits(bit: bool, len: usize) -> (bits: TileBits)
    requires
        len <= usize::MAX / 8,
    ensures
        bits_of(bits) == Seq::new(len as nat, |i: int| bit),
{
    TileBits { bits: BitVec::repeat(bit, len) }
}

/// `BitSlice::index`: the bit at `index`.
#[verifier::external_body]
fn bit_at(bits: &TileBits, index: usize) -> (bit: bool)
    requires
        index < bits_of(*bits).len(),
    ensures
        bit == bits_of(*bits)[index as int],
{
    bits.bits[index]
}

/// `BitSlice::set`: writes the bit at `index` and leaves the others alone.
#[verifier::external_body]
fn set_bit(bits: &mut TileBits, index: usize, value: bool)
    requires
        index < bits_of(*old(bits)).len(),
    ensures
        bits_of(*final(bits)) == bits_of(*old(bits)).update(index as int, value),
{
    bits.bits.set(index, value)
}

/// `BitVec::clone`: a vector with the same bits.
#[verifier::external_body]
fn copied_bits(bits: &TileBits) -> (copy: TileBits)
    ensures
        bits_of(copy) == bits_of(*bits),
{
    TileBits { bits: bits.bits.clone() }
}

/// `BitSlice::iter_ones`: the positions of the bits that are set, in ascending
/// order.
#[verifier::external_body]
fn positions_of_ones(bits: &TileBits) -> (positions: Vec<usize>)
    ensures
        positions@ == set_positions(bits_of(*bits)),
{
    bits.bits.iter_ones().collect()
}

/// The positions at which `bits` is set, in ascending order.
pub open spec fn set_positions(bits: Seq<bool>) -> Seq<usize>
    decreases bits.len(),
{
    if bits.len() == 0 {
        Seq::empty()
    } else if bits.last() {
        set_positions(bits.drop_last()).push((bits.len() - 1) as usize)
    } else {
        set_positions(bits.drop_last())
    }
}

/// The position of a tile in the grid of an image.
#[derive(Debug, Clone, Copy, PartialEq, Eq, Structural)]
pub struct TilePos {
    pub x: u32,
    pub y: u32,
}

/// The size of an image in pixels and in tiles. All layers of a document share
/// one layout.
#[derive(Debug, Clone, Copy, PartialEq, Eq, Structural)]
pub struct ImageLayout {
    pub size: TilePos,
    pub tiles_per_row: u32,
    pub tiles_per_column: u32,
}

#[derive(Debug, Clone, Copy, PartialEq, Eq, Structural)]
pub enum ImageLayoutError {
    TileIndexOutOfBounds,
    LayoutMismatch,
}

/// The number of parts of size `part` that cover `whole`.
pub open spec fn parts(whole: int, part: int) -> int {
    (whole + part - 1) / part
}

/// The number of parts of size `part` that cover `whole`.
pub fn div_ceil(whole: u32, part: u32) -> (count: u32)
    requires
        part > 0,
    ensures
        count == parts(whole as int, part as int),
        count <= whole,
        count * part >= whole,
        whole > 0 ==> (count - 1) * part < whole,
        whole > 0 ==> count > 0,
{
    let quotient: u32 = whole / part;
    let rest: u32 = whole % part;
    let ghost w = whole as int;
    let ghost p = part as int;
    let ghost q = w / p;
    let ghost r = w % p;
    proof {
        vstd::arithmetic::div_mod::lemma_fundamental_div_mod(w, p);
        assert(q <= p * q && (r > 0 ==> q < w)) by (nonlinear_arith)
            requires
                p >= 1,
                q >= 0,
                w == p * q + r,
                r >= 0,
        ;
        if r > 0 {
            assert(w + p - 1 == (q + 1) * p + (r - 1)) by (nonlinear_arith)
                requires
                    w == p * q + r,
            ;
            vstd::arithmetic::div_mod::lemma_fundamental_div_mod_converse(w + p - 1, p, q + 1, r - 1);
        } else {
            assert(w + p - 1 == q * p + (p - 1)) by (nonlinear_arith)
                requires
                    w == p * q,
            ;
            vstd::arithmetic::div_mod::lemma_fundamental_div_mod_converse(w + p - 1, p, q, p - 1);
        }
        assert((q + 1) * p == p * q + p && q * p == p * q && (q - 1) * p == p * q - p)
            by (nonlinear_arith);
        assert(w > 0 && r == 0 ==> q > 0) by (nonlinear_arith)
            requires
                w == p * q + r,
                q >= 0,
        ;
    }
    if rest > 0 {
        quotient + 1
    } else {
        quotient
    }
}

impl ImageLayout {
    /// The number of tiles.
    pub open spec fn tile_count(&self) -> int {
        self.tiles_per_row * self.tiles_per_column
    }

    /// The image has a tile at this position.
    pub open spec fn has_tile(&self, tile: TilePos) -> bool {
        tile.x < self.tiles_per_row && tile.y < self.tiles_per_column
    }

    /// The index of a tile: tiles are numbered row by row.
    pub open spec fn index_of(&self, tile: TilePos) -> int {
        tile.y * self.tiles_per_row + tile.x
    }

    /// If there is such a tile, its number fits.
    pub open spec fn numbers(&self, tile: TilePos) -> bool {
        self.has_tile(tile) ==> self.index_of(tile) <= u32::MAX
    }

    /// The position of the tile with an index.
    pub open spec fn pos_of(&self, index: int) -> TilePos {
        TilePos {
            x: (index % (self.tiles_per_row as int)) as u32,
            y: (index / (self.tiles_per_row as int)) as u32,
        }
    }

    /// The layout of an image of a size: as many tiles as cover it.
    pub open spec fn for_size(size_x: u32, size_y: u32) -> ImageLayout {
        ImageLayout {
            size: TilePos { x: size_x, y: size_y },
            tiles_per_row: parts(size_x as int, TILE_IMAGE as int) as u32,
            tiles_per_column: parts(size_y as int, TILE_IMAGE as int) as u32,
        }
    }

    pub fn new(size_x: u32, size_y: u32) -> (layout: Self)
        ensures
            layout == Self::for_size(size_x, size_y),
            layout.tiles_per_row * TILE_IMAGE >= size_x,
            layout.tiles_per_column * TILE_IMAGE >= size_y,
    {
        let tiles_per_row: u32 = div_ceil(size_x, TILE_IMAGE);
        let tiles_per_column: u32 = div_ceil(size_y, TILE_IMAGE);
        ImageLayout { size: TilePos { x: size_x, y: size_y }, tiles_per_row, tiles_per_column }
    }

    /// The number of tiles.
    pub fn max_tiles(self) -> (count: usize)
        requires
            self.tile_count() <= usize::MAX,
        ensures
            count == self.tile_count(),
    {
        let row: usize = self.tiles_per_row as usize;
        let column: usize = self.tiles_per_column as usize;
        row * column
    }

    /// The index of a tile.
    pub fn tile_index(&self, tile: TilePos) -> (result: Result<usize, ImageLayoutError>)
        requires
            self.numbers(tile),
        ensures
            match result {
                Ok(index) => self.has_tile(tile) && index == self.index_of(tile) && index
                    < self.tile_count(),
                Err(error) => !self.has_tile(tile) && error
                    == ImageLayoutError::TileIndexOutOfBounds,
            },
    {
        if tile.x >= self.tiles_per_row || tile.y >= self.tiles_per_column {
            Err(ImageLayoutError::TileIndexOutOfBounds)
        } else {
            proof {
                lemma_index_in_grid(*self, tile);
            }
            Ok((tile.y * self.tiles_per_row + tile.x) as usize)
        }
    }

    /// The position of the tile with an index.
    pub fn tile_pos(&self, index: usize) -> (result: Result<TilePos, ImageLayoutError>)
        requires
            self.tile_count() <= usize::MAX,
        ensures
            match result {
                Ok(tile) => index < self.tile_count() && tile == self.pos_of(index as int)
                    && self.has_tile(tile) && self.index_of(tile) == index,
                Err(error) => index >= self.tile_count() && error
                    == ImageLayoutError::TileIndexOutOfBounds,
            },
    {
        if index >= self.max_tiles() {
            Err(ImageLayoutError::TileIndexOutOfBounds)
        } else {
            proof {
                lemma_index_round_trip(*self, index as int);
            }
            let x: usize = index % self.tiles_per_row as usize;
            let y: usize = index / self.tiles_per_row as usize;
            Ok(TilePos { x: x as u32, y: y as u32 })
        }
    }
}

/// The index of a tile is below the number of tiles.
pub proof fn lemma_index_in_grid(layout: ImageLayout, tile: TilePos)
    requires
        layout.has_tile(tile),
    ensures
        0 <= layout.index_of(tile) < layout.tile_count(),
        layout.tiles_per_row > 0,
{
    let (x, y) = (tile.x as int, tile.y as int);
    let (row, column) = (layout.tiles_per_row as int, layout.tiles_per_column as int);
    assert(0 <= y * row + x < row * column) by (nonlinear_arith)
        requires
            0 <= x < row,
            0 <= y < column,
    ;
}

/// Going from an index to a position and back gives the same index.
pub proof fn lemma_index_round_trip(layout: ImageLayout, index: int)
    requires
        0 <= index < layout.tile_count(),
    ensures
        layout.tiles_per_row > 0,
        layout.pos_of(index).x == index % (layout.tiles_per_row as int),
        layout.pos_of(index).y == index / (layout.tiles_per_row as int),
        layout.has_tile(layout.pos_of(index)),
        layout.index_of(layout.pos_of(index)) == index,
{
    let (row, column) = (layout.tiles_per_row as int, layout.tiles_per_column as int);
    assert(row > 0 && 0 <= index % row < row && 0 <= index / row < column && (index / row) * row
        + index % row == index) by (nonlinear_arith)
        requires
            0 <= index < row * column,
            row >= 0,
            column >= 0,
    ;
}

/// Going from a position to an index and back gives the same position.
pub proof fn lemma_position_round_trip(layout: ImageLayout, tile: TilePos)
    requires
        layout.has_tile(tile),
    ensures
        layout.pos_of(layout.index_of(tile)) == tile,
{
    let (x, y, row) = (tile.x as int, tile.y as int, layout.tiles_per_row as int);
    assert((y * row + x) / row == y && (y * row + x) % row == x) by (nonlinear_arith)
        requires
            0 <= x < row,
            0 <= y,
    ;
}

/// A key with a value that stands for the absence of a tile.
pub trait EmptyKey: Copy + PartialEq {
    const EMPTY: Self;

    /// Tells whether the key is the one that stands for no tile.
    fn is_empty(self) -> (empty: bool)
        ensures
            vstd::laws_eq::obeys_concrete_eq::<Self>() ==> empty == (self == Self::EMPTY),
    {
        proof {
            reveal(vstd::laws_eq::obeys_concrete_eq);
        }
        self == Self::EMPTY
    }
}

#[derive(Debug, Clone, Copy, PartialEq, Eq, Structural)]
pub enum TileImageError {
    Layout(ImageLayoutError),
}

impl From<ImageLayoutError> for TileImageError {
    fn from(err: ImageLayoutError) -> (error: Self) {
        TileImageError::Layout(err)
    }
}

impl vstd::std_specs::convert::FromSpecImpl<ImageLayoutError> for TileImageError {
    open spec fn obeys_from_spec() -> bool {
        true
    }

    open spec fn from_spec(err: ImageLayoutError) -> Self {
        TileImageError::Layout(err)
    }
}

/// The number of bits that are set.
pub open spec fn set_count(bits: Seq<bool>) -> nat {
    set_positions(bits).len()
}

/// Each position at which a bit is set is listed, and no other.
pub proof fn lemma_set_positions(bits: Seq<bool>)
    requires
        bits.len() <= usize::MAX,
    ensures
        forall|k: int|
            0 <= k < set_positions(bits).len() ==> (#[trigger] set_positions(bits)[k]) < bits.len()
                && bits[set_positions(bits)[k] as int],
        forall|i: int|
            0 <= i < bits.len() && #[trigger] bits[i] ==> set_positions(bits).contains(i as usize),
        set_positions(bits).len() <= bits.len(),
    decreases bits.len(),
{
    if bits.len() > 0 {
        let shorter = bits.drop_last();
        lemma_set_positions(shorter);
        let all = set_positions(bits);
        let before = set_positions(shorter);
        assert forall|k: int| 0 <= k < all.len() implies (#[trigger] all[k]) < bits.len()
            && bits[all[k] as int] by {
            if k < before.len() {
                assert(all[k] == before[k]);
                assert(shorter[before[k] as int]);
            }
        }
        assert forall|i: int| 0 <= i < bits.len() && #[trigger] bits[i] implies all.contains(
            i as usize,
        ) by {
            if i < shorter.len() {
                assert(shorter[i]);
                assert(before.contains(i as usize));
                let k = before.index_of(i as usize);
                assert(all[k] == i as usize);
            } else {
                assert(all[before.len() as int] == i as usize);
            }
        }
    }
}

/// Setting a bit adds one to the count if the bit was not set.
proof fn lemma_set_count(bits: Seq<bool>, index: int)
    requires
        0 <= index < bits.len(),
    ensures
        set_count(bits.update(index, true)) == set_count(bits) + (if bits[index] {
            0nat
        } else {
            1nat
        }),
        !bits[index] ==> set_count(bits) < bits.len(),
    decreases bits.len(),
{
    let changed = bits.update(index, true);
    lemma_count_bound(bits.drop_last());
    if index == bits.len() - 1 {
        assert(changed.drop_last() =~= bits.drop_last());
    } else {
        lemma_set_count(bits.drop_last(), index);
        assert(changed.drop_last() =~= bits.drop_last().update(index, true));
    }
}

proof fn lemma_count_bound(bits: Seq<bool>)
    ensures
        set_count(bits) <= bits.len(),
    decreases bits.len(),
{
    if bits.len() > 0 {
        lemma_count_bound(bits.drop_last());
    }
}

/// Where no bit is set, the count is zero.
proof fn lemma_no_bits(len: nat)
    ensures
        set_count(Seq::new(len, |i: int| false)) == 0,
    decreases len,
{
    if len > 0 {
        assert(Seq::new(len, |i: int| false).drop_last() =~= Seq::new(
            (len - 1) as nat,
            |i: int| false,
        ));
        lemma_no_bits((len - 1) as nat);
    }
}

/// What a tiled image holds.
#[verifier::ext_equal]
pub struct TileImageModel<K> {
    pub layout: ImageLayout,
    pub tiles: Seq<K>,
    pub dirty: Seq<bool>,
}

impl<K> TileImageModel<K> {
    /// The key of a tile.
    pub open spec fn tile_at(&self, tile: TilePos) -> K {
        self.tiles[self.layout.index_of(tile)]
    }

    /// The tile is dirty.
    pub open spec fn is_dirty(&self, tile: TilePos) -> bool {
        self.dirty[self.layout.index_of(tile)]
    }

    /// The image with the key of a tile set.
    pub open spec fn with_tile(&self, tile: TilePos, key: K) -> TileImageModel<K> {
        TileImageModel {
            layout: self.layout,
            tiles: self.tiles.update(self.layout.index_of(tile), key),
            dirty: self.dirty.update(self.layout.index_of(tile), true),
        }
    }
}

/// An image made of tiles. Each tile has a key, and a bit that tells whether
/// it was ever set.
pub struct TileImage<K> {
    layout: ImageLayout,
    tiles: Vec<K>,
    dirty_bits: TileBits,
    dirty_count: usize,
}

impl<K> View for TileImage<K> {
    type V = TileImageModel<K>;

    closed spec fn view(&self) -> TileImageModel<K> {
        TileImageModel {
            layout: self.layout,
            tiles: self.tiles@,
            dirty: bits_of(self.dirty_bits),
        }
    }
}

impl<K> TileImage<K> {
    /// The number of dirty tiles that the image keeps.
    pub closed spec fn count(&self) -> nat {
        self.dirty_count as nat
    }

    /// There is a key and a bit for each tile, and the number of dirty tiles is
    /// right.
    pub open spec fn inv(&self) -> bool {
        &&& self@.tiles.len() == self@.layout.tile_count()
        &&& self@.dirty.len() == self@.layout.tile_count()
        &&& self@.layout.tile_count() <= usize::MAX
        &&& self.count() == set_count(self@.dirty)
    }
}

impl<K: Clone> Clone for TileImage<K> {
    /// An image with the same layout and dirty tiles, and with clones of the keys.
    fn clone(&self) -> (copy: Self)
        ensures
            copy@.layout == self@.layout,
            copy@.dirty == self@.dirty,
            copy.count() == self.count(),
            copy@.tiles.len() == self@.tiles.len(),
            forall|i: int|
                0 <= i < self@.tiles.len() ==> cloned::<K>(
                    #[trigger] self@.tiles[i],
                    copy@.tiles[i],
                ),
            self.inv() ==> copy.inv(),
    {
        TileImage {
            layout: self.layout,
            tiles: self.tiles.clone(),
            dirty_bits: copied_bits(&self.dirty_bits),
            dirty_count: self.dirty_count,
        }
    }
}

/// A layout that can be filled with tiles: the record of dirty tiles fits.
pub open spec fn fillable(layout: ImageLayout) -> bool {
    layout.tile_count() <= usize::MAX / 8
}

impl<K: Copy + EmptyKey> TileImage<K> {
    /// An image without tiles.
    pub open spec fn blank(layout: ImageLayout) -> TileImageModel<K> {
        TileImageModel {
            layout,
            tiles: Seq::new(layout.tile_count() as nat, |i: int| K::EMPTY),
            dirty: Seq::new(layout.tile_count() as nat, |i: int| false),
        }
    }

    pub fn new(layout: ImageLayout) -> (image: Self)
        requires
            fillable(layout),
        ensures
            image.inv(),
            image@ == Self::blank(layout),
    {
        let max_tiles: usize = layout.max_tiles();
        let mut tiles: Vec<K> = Vec::new();
        let mut index: usize = 0;
        while index < max_tiles
            invariant
                index <= max_tiles,
                tiles@.len() == index,
                forall|i: int| 0 <= i < index ==> tiles@[i] == K::EMPTY,
            decreases max_tiles - index,
        {
            tiles.push(K::EMPTY);
            index += 1;
        }
        let image = TileImage {
            layout,
            tiles,
            dirty_bits: repeated_bits(false, max_tiles),
            dirty_count: 0,
        };
        proof {
            lemma_no_bits(max_tiles as nat);
            assert(image@ =~= Self::blank(layout));
        }
        image
    }

    /// The key of a tile.
    pub fn get_tile(&self, pos: TilePos) -> (result: Result<&K, TileImageError>)
        requires
            self.inv(),
            self@.layout.numbers(pos),
        ensures
            match result {
                Ok(key) => self@.layout.has_tile(pos) && *key == self@.tile_at(pos),
                Err(error) => !self@.layout.has_tile(pos) && error == TileImageError::Layout(
                    ImageLayoutError::TileIndexOutOfBounds,
                ),
            },
    {
        proof {
            if self.layout.has_tile(pos) {
                lemma_index_in_grid(self.layout, pos);
            }
        }
        match self.layout.tile_index(pos) {
            Ok(index) => Ok(&self.tiles[index]),
            Err(error) => Err(TileImageError::from(error)),
        }
    }

    /// Sets the key of a tile, which is dirty from then on.
    pub fn set_tile(&mut self, tile: TilePos, tile_key: K) -> (result: Result<(), TileImageError>)
        requires
            old(self).inv(),
            old(self)@.layout.numbers(tile),
        ensures
            final(self).inv(),
            match result {
                Ok(()) => old(self)@.layout.has_tile(tile) && final(self)@ == old(self)@.with_tile(
                    tile,
                    tile_key,
                ),
                Err(error) => !old(self)@.layout.has_tile(tile) && error == TileImageError::Layout(
                    ImageLayoutError::TileIndexOutOfBounds,
                ) && final(self)@ == old(self)@,
            },
    {
        proof {
            if self.layout.has_tile(tile) {
                lemma_index_in_grid(self.layout, tile);
            }
        }
        match self.layout.tile_index(tile) {
            Ok(index) => {
                proof {
                    lemma_set_count(self@.dirty, index as int);
                }
                self.tiles.set(index, tile_key);
                let was_dirty = bit_at(&self.dirty_bits, index);
                set_bit(&mut self.dirty_bits, index, true);
                if !was_dirty {
                    self.dirty_count = self.dirty_count + 1;
                }
                Ok(())
            },
            Err(error) => Err(TileImageError::from(error)),
        }
    }

    /// The keys of the dirty tiles, by ascending index.
    pub fn iter_dirty_tile_keys(&self) -> (keys: Vec<K>)
        requires
            self.inv(),
        ensures
            keys@ == set_positions(self@.dirty).map_values(|index: usize| self@.tiles[index as int]),
            keys@.len() == self.count(),
    {
        let positions = positions_of_ones(&self.dirty_bits);
        proof {
            lemma_set_positions(self@.dirty);
        }
        let mut keys: Vec<K> = Vec::new();
        let mut k: usize = 0;
        while k < positions.len()
            invariant
                k <= positions@.len(),
                forall|i: int|
                    0 <= i < positions@.len() ==> (#[trigger] positions@[i]) < self.tiles@.len(),
                keys@.len() == k,
                forall|i: int|
                    0 <= i < k ==> #[trigger] keys@[i] == self.tiles@[positions@[i] as int],
            decreases positions@.len() - k,
        {
            keys.push(self.tiles[positions[k]]);
            k += 1;
        }
        proof {
            assert(keys@ =~= set_positions(self@.dirty).map_values(
                |index: usize| self@.tiles[index as int],
            ));
        }
        keys
    }

    /// An image without tiles, for a size in pixels.
    pub fn from_pixel_size(size_x: u32, size_y: u32) -> (image: Self)
        requires
            fillable(ImageLayout::for_size(size_x, size_y)),
        ensures
            image.inv(),
            image@ == Self::blank(ImageLayout::for_size(size_x, size_y)),
    {
        let layout = ImageLayout::new(size_x, size_y);
        Self::new(layout)
    }

    /// The key of the tile at a position given by its coordinates.
    pub fn get_tile_at(&self, tile_x: u32, tile_y: u32) -> (result: Result<&K, TileImageError>)
        requires
            self.inv(),
            self@.layout.numbers(TilePos { x: tile_x, y: tile_y }),
        ensures
            match result {
                Ok(key) => self@.layout.has_tile(TilePos { x: tile_x, y: tile_y }) && *key
                    == self@.tile_at(TilePos { x: tile_x, y: tile_y }),
                Err(error) => !self@.layout.has_tile(TilePos { x: tile_x, y: tile_y }) && error
                    == TileImageError::Layout(ImageLayoutError::TileIndexOutOfBounds),
            },
    {
        let pos = TilePos { x: tile_x, y: tile_y };
        self.get_tile(pos)
    }

    /// Sets the key of the tile at a position given by its coordinates.
    pub fn set_tile_at(&mut self, tile_x: u32, tile_y: u32, key: K) -> (result: Result<
        (),
        TileImageError,
    >)
        requires
            old(self).inv(),
            old(self)@.layout.numbers(TilePos { x: tile_x, y: tile_y }),
        ensures
            final(self).inv(),
            match result {
                Ok(()) => old(self)@.layout.has_tile(TilePos { x: tile_x, y: tile_y })
                    && final(self)@ == old(self)@.with_tile(TilePos { x: tile_x, y: tile_y }, key),
                Err(error) => !old(self)@.layout.has_tile(TilePos { x: tile_x, y: tile_y }) && error
                    == TileImageError::Layout(ImageLayoutError::TileIndexOutOfBounds)
                    && final(self)@ == old(self)@,
            },
    {
        let pos = TilePos { x: tile_x, y: tile_y };
        self.set_tile(pos, key)
    }

    /// Every tile with its coordinates, by ascending index.
    pub fn iter_all_tiles(&self) -> (tiles: Vec<(u32, u32, K)>)
        requires
            self.inv(),
        ensures
            tiles@.len() == self@.tiles.len(),
            forall|i: int|
                0 <= i < tiles@.len() ==> #[trigger] tiles@[i] == (
                    self@.layout.pos_of(i).x,
                    self@.layout.pos_of(i).y,
                    self@.tiles[i],
                ),
    {
        let mut tiles: Vec<(u32, u32, K)> = Vec::new();
        let mut index: usize = 0;
        while index < self.tiles.len()
            invariant
                self.inv(),
                index <= self.tiles@.len(),
                tiles@.len() == index,
                forall|i: int|
                    0 <= i < index ==> #[trigger] tiles@[i] == (
                        self@.layout.pos_of(i).x,
                        self@.layout.pos_of(i).y,
                        self@.tiles[i],
                    ),
            decreases self.tiles@.len() - index,
        {
            proof {
                lemma_index_round_trip(self.layout, index as int);
            }
            let x: usize = index % self.layout.tiles_per_row as usize;
            let y: usize = index / self.layout.tiles_per_row as usize;
            tiles.push((x as u32, y as u32, self.tiles[index]));
            index += 1;
        }
        tiles
    }

    /// The size in pixels.
    pub fn pixel_size(&self) -> (size: (u32, u32))
        ensures
            size == (self@.layout.size.x, self@.layout.size.y),
    {
        (self.layout.size.x, self.layout.size.y)
    }

    pub fn tiles_per_row(&self) -> (count: u32)
        ensures
            count == self@.layout.tiles_per_row,
    {
        self.layout.tiles_per_row
    }

    pub fn tiles_per_column(&self) -> (count: u32)
        ensures
            count == self@.layout.tiles_per_column,
    {
        self.layout.tiles_per_column
    }

    /// Every tile with its coordinates, by ascending index, borrowed.
    pub fn iter_tiles(&self) -> (tiles: Vec<(u32, u32, &K)>)
        requires
            self.inv(),
        ensures
            tiles@.len() == self@.tiles.len(),
            forall|i: int|
                0 <= i < tiles@.len() ==> #[trigger] tiles@[i] == (
                    self@.layout.pos_of(i).x,
                    self@.layout.pos_of(i).y,
                    &self@.tiles[i],
                ),
    {
        let mut tiles: Vec<(u32, u32, &K)> = Vec::new();
        let mut index: usize = 0;
        while index < self.tiles.len()
            invariant
                self.inv(),
                index <= self.tiles@.len(),
                tiles@.len() == index,
                forall|i: int|
                    0 <= i < index ==> #[trigger] tiles@[i] == (
                        self@.layout.pos_of(i).x,
                        self@.layout.pos_of(i).y,
                        &self@.tiles[i],
                    ),
            decreases self.tiles@.len() - index,
        {
            proof {
                lemma_index_round_trip(self.layout, index as int);
            }
            let x: usize = index % self.layout.tiles_per_row as usize;
            let y: usize = index / self.layout.tiles_per_row as usize;
            tiles.push((x as u32, y as u32, &self.tiles[index]));
            index += 1;
        }
        tiles
    }
}

/// A tile that has been set is read back as it was set and is dirty. Every
/// other tile stays as it was.
pub proof fn lemma_read_after_write<K>(
    image: TileImageModel<K>,
    written: TilePos,
    key: K,
    read: TilePos,
)
    requires
        image.tiles.len() == image.layout.tile_count(),
        image.dirty.len() == image.layout.tile_count(),
        image.layout.has_tile(written),
        image.layout.has_tile(read),
    ensures
        image.with_tile(written, key).tile_at(read) == (if read == written {
            key
        } else {
            image.tile_at(read)
        }),
        image.with_tile(written, key).is_dirty(read) == (read == written || image.is_dirty(read)),
{
    lemma_index_in_grid(image.layout, written);
    lemma_index_in_grid(image.layout, read);
    lemma_position_round_trip(image.layout, written);
    lemma_position_round_trip(image.layout, read);
}

} // verus!
