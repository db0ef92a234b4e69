//! An image as a grid of tile keys.
use vstd::prelude::*;

use crate::images::layout::{ImageLayout, PixelArea};
use crate::tiles::TileKey;

verus! {

#[derive(Debug, Clone, Copy, PartialEq, Eq, Structural)]
pub enum ImageCreateError {
    TooManyTiles,
}

#[derive(Debug, Clone, Copy, PartialEq, Eq, Structural)]
pub enum ImageTileAccessError {
    OutOfBounds,
}

impl ImageCreateError {
    /// The message for this error.
    pub fn message(&self) -> (message: String)
        ensures
            message@ == "image has too many tiles for this platform"@,
    {
        match self {
            ImageCreateError::TooManyTiles => {
                "image has too many tiles for this platform".to_owned()
            },
        }
    }
}

impl ImageTileAccessError {
    /// The message for this error.
    pub fn message(&self) -> (message: String)
        ensures
            message@ == "tile index is out of bounds"@,
    {
        match self {
            ImageTileAccessError::OutOfBounds => "tile index is out of bounds".to_owned(),
        }
    }
}

/// The number of an atlas backend.
#[derive(Debug, Clone, Copy, PartialEq, Eq, Structural)]
pub struct BackendId(pub u8);

impl BackendId {
    pub fn new(id: u8) -> (backend: Self)
        ensures
            backend.0 == id,
    {
        BackendId(id)
    }
}

/// What an image holds.
#[verifier::ext_equal]
pub struct ImageModel {
    pub layout: ImageLayout,
    pub tile_keys: Seq<TileKey>,
    pub backend: BackendId,
}

/// An image: a key for each tile of a layout, all in one atlas backend.
#[derive(Debug)]
pub struct Image {
    layout: ImageLayout,
    tile_keys: Vec<TileKey>,
    backend: BackendId,
}

impl View for Image {
    type V = ImageModel;

    closed spec fn view(&self) -> ImageModel {
        ImageModel {
            layout: self.layout,
            tile_keys: self.tile_keys@,
            backend: self.backend,
        }
    }
}

impl Image {
    /// There is a key for each tile.
    pub open spec fn inv(&self) -> bool {
        &&& self@.layout.inv()
        &&& self@.tile_keys.len() == self@.layout.tile_count()
    }

    /// An image without tiles.
    pub fn new(layout: ImageLayout, backend: BackendId) -> (result: Result<Self, ImageCreateError>)
        requires
            layout.inv(),
            layout.tile_count() <= u32::MAX,
        ensures
            match result {
                Ok(image) => image.inv() && image@ == (ImageModel {
                    layout,
                    tile_keys: Seq::new(
                        layout.tile_count() as nat,
                        |i: int| TileKey::nothing(),
                    ),
                    backend,
                }),
                Err(error) => error == ImageCreateError::TooManyTiles && layout.tile_count()
                    > usize::MAX,
            },
            layout.tile_count() <= usize::MAX ==> result is Ok,
    {
        let total_tiles: u32 = layout.total_tiles();
        if total_tiles as u64 > usize::MAX as u64 {
            return Err(ImageCreateError::TooManyTiles);
        }
        let mut tile_keys: Vec<TileKey> = Vec::new();
        let mut index: u32 = 0;
        while index < total_tiles
            invariant
                index <= total_tiles,
                tile_keys@.len() == index,
                forall|i: int| 0 <= i < index ==> tile_keys@[i] == TileKey::nothing(),
            decreases total_tiles - index,
        {
            tile_keys.push(TileKey::empty());
            index += 1;
        }
        let image = Image { layout, tile_keys, backend };
        assert(image@.tile_keys =~= Seq::new(
            layout.tile_count() as nat,
            |i: int| TileKey::nothing(),
        ));
        Ok(image)
    }

    pub fn backend(&self) -> (backend: BackendId)
        ensures
            backend == self@.backend,
    {
        self.backend
    }

    pub fn layout(&self) -> (layout: &ImageLayout)
        ensures
            *layout == self@.layout,
    {
        &self.layout
    }

    pub fn tile_keys(&self) -> (keys: &[TileKey])
        ensures
            keys@ == self@.tile_keys,
    {
        self.tile_keys.as_slice()
    }

    /// The key of a tile.
    pub fn tile_key(&self, tile_index: usize) -> (key: Option<TileKey>)
        ensures
            key == (if tile_index < self@.tile_keys.len() {
                Some(self@.tile_keys[tile_index as int])
            } else {
                None
            }),
    {
        if tile_index < self.tile_keys.len() {
            Some(self.tile_keys[tile_index])
        } else {
            None
        }
    }

    /// Sets the key of a tile.
    pub fn set_tile_key(&mut self, tile_index: usize, tile_key: TileKey) -> (result: Result<
        (),
        ImageTileAccessError,
    >)
        ensures
            old(self).inv() ==> final(self).inv(),
            if tile_index < old(self)@.tile_keys.len() {
                result is Ok && final(self)@ == (ImageModel {
                    tile_keys: old(self)@.tile_keys.update(tile_index as int, tile_key),
                    ..old(self)@
                })
            } else {
                result == Err::<(), _>(ImageTileAccessError::OutOfBounds) && final(self)@ == old(
                    self,
                )@
            },
    {
        if tile_index >= self.tile_keys.len() {
            return Err(ImageTileAccessError::OutOfBounds);
        }
        self.tile_keys.set(tile_index, tile_key);
        Ok(())
    }

    /// Collects the keys of the tiles that an area touches, by ascending
    /// index.
    pub fn collect_affected_tile_keys(&self, area: PixelArea, output: &mut Vec<TileKey>)
        requires
            self.inv(),
        ensures
            exists|indices: Seq<usize>|
                #![trigger crate::images::layout::ascending(indices)]
                crate::images::layout::ascending(indices) && indices.len() == final(output)@.len()
                    && (forall|index: usize| #[trigger]
                    indices.contains(index) <==> self@.layout.lists(area, index)) && (forall|i: int|
                    0 <= i < indices.len() ==> (#[trigger] indices[i]) < self@.tile_keys.len()
                        && final(output)@[i] == self@.tile_keys[indices[i] as int]),
    {
        output.clear();
        let mut indices: Vec<usize> = Vec::new();
        self.layout.collect_affected_tile_indices(area, &mut indices);
        assert(crate::images::layout::ascending(indices@));
        let mut position: usize = 0;
        while position < indices.len()
            invariant
                self.inv(),
                position <= indices@.len(),
                output@.len() == position,
                forall|index: usize| #[trigger]
                    indices@.contains(index) <==> self@.layout.lists(area, index),
                forall|i: int|
                    0 <= i < position ==> (#[trigger] indices@[i]) < self@.tile_keys.len()
                        && output@[i] == self@.tile_keys[indices@[i] as int],
            decreases indices@.len() - position,
        {
            let index: usize = indices[position];
            proof {
                assert(indices@.contains(index));
                lemma_listed_is_a_tile(self@.layout, area, index);
            }
            output.push(self.tile_keys[index]);
            position += 1;
        }
    }
}

/// The index of a tile that an area touches is below the number of tiles.
proof fn lemma_listed_is_a_tile(layout: ImageLayout, area: PixelArea, index: usize)
    requires
        layout.inv(),
        layout.lists(area, index),
    ensures
        index < layout.tile_count(),
{
    let (x, y) = choose|x: int, y: int|
        layout.touches(area, x, y) && #[trigger] layout.index_of(x, y) == index;
    crate::images::layout::lemma_bounds_in_image(layout, area);
    let (width, height) = (layout.tile_x as int, layout.tile_y as int);
    assert(y * width + x < width * height) by (nonlinear_arith)
        requires
            0 <= x < width,
            0 <= y < height,
    ;
}

} // verus!
