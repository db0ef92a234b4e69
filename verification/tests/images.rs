use glaphica::images::image::{BackendId, Image, ImageCreateError, ImageTileAccessError};
use glaphica::images::image_id::{ImageId, ImageIdAllocator, NodeId};
use glaphica::images::layout::{
    effective_radius_px, ImageLayout, ImageLayoutError, PixelArea, TileOrigin,
};
use glaphica::images::stored_image::{StoredImage, StoredImageError};
use glaphica::tiles::{TileKey, IMAGE_TILE_SIZE};

/// The pixels around a center that a stroke of a radius can affect.
fn area_around(x: f32, y: f32, max_affected_radius_px: u32) -> PixelArea {
    let radius = effective_radius_px(max_affected_radius_px) as f32;
    PixelArea {
        min_x: (x - radius).floor() as i64,
        max_x: (x + radius).floor() as i64,
        min_y: (y - radius).floor() as i64,
        max_y: (y + radius).floor() as i64,
    }
}

#[test]
fn set_and_get_tile_key_use_index_mapping() {
    let layout = ImageLayout::new(IMAGE_TILE_SIZE, IMAGE_TILE_SIZE);
    let image_result = Image::new(layout, BackendId::new(1));
    assert!(image_result.is_ok());
    let mut image = match image_result {
        Ok(image) => image,
        Err(_) => return,
    };
    let key = TileKey::from_parts(1, 2, 3);

    let set = image.set_tile_key(0, key);
    assert!(set.is_ok());
    assert_eq!(image.tile_key(0), Some(key));
}

#[test]
fn set_tile_key_rejects_out_of_bounds_index() {
    let layout = ImageLayout::new(IMAGE_TILE_SIZE, IMAGE_TILE_SIZE);
    let image_result = Image::new(layout, BackendId::new(1));
    assert!(image_result.is_ok());
    let mut image = match image_result {
        Ok(image) => image,
        Err(_) => return,
    };
    let set = image.set_tile_key(9, TileKey::from_parts(1, 2, 3));
    assert_eq!(set, Err(ImageTileAccessError::OutOfBounds));
}

#[test]
fn collect_affected_tile_keys_uses_layout_addressing() {
    let layout = ImageLayout::new(IMAGE_TILE_SIZE * 2, IMAGE_TILE_SIZE);
    let image_result = Image::new(layout, BackendId::new(1));
    assert!(image_result.is_ok());
    let mut image = match image_result {
        Ok(image) => image,
        Err(_) => return,
    };
    assert!(image
        .set_tile_key(0, TileKey::from_parts(1, 2, 100))
        .is_ok());
    assert!(image
        .set_tile_key(1, TileKey::from_parts(1, 2, 101))
        .is_ok());

    let mut keys = Vec::new();
    image.collect_affected_tile_keys(area_around(IMAGE_TILE_SIZE as f32, 5.0, 0), &mut keys);

    assert_eq!(
        keys,
        vec![
            TileKey::from_parts(1, 2, 100),
            TileKey::from_parts(1, 2, 101)
        ]
    );
}

#[test]
fn image_id_allocator_stays_outside_node_namespace() {
    let mut allocator = ImageIdAllocator::new();
    let image_id = allocator.allocate();
    assert_eq!(image_id.node_id(), None);
}

#[test]
fn allocated_image_ids_differ() {
    let mut allocator = ImageIdAllocator::default();
    assert_ne!(allocator.allocate(), allocator.allocate());
    assert_eq!(ImageId(0x8000_0000_0000_0005).node_id(), Some(NodeId(5)));
}

#[test]
fn pixel_to_index_maps_pixels_to_tile_indices() {
    let layout = ImageLayout::new(IMAGE_TILE_SIZE * 2, IMAGE_TILE_SIZE * 2);
    let index = layout.pixel_to_index(IMAGE_TILE_SIZE + 1, 0);
    assert_eq!(index, Ok(1usize));
}

#[test]
fn pixel_to_index_rejects_out_of_bounds_pixels() {
    let layout = ImageLayout::new(32, 16);
    let index = layout.pixel_to_index(99, 0);
    assert_eq!(index, Err(ImageLayoutError::OutOfBounds));
}

#[test]
fn affected_tiles_include_one_gutter_even_with_zero_radius() {
    let layout = ImageLayout::new(IMAGE_TILE_SIZE * 2, IMAGE_TILE_SIZE);
    let mut indices = Vec::new();

    layout.collect_affected_tile_indices(
        area_around(IMAGE_TILE_SIZE as f32, 10.0, 0),
        &mut indices,
    );

    assert_eq!(indices, vec![0, 1]);
}

#[test]
fn affected_tiles_are_empty_when_center_is_outside_image() {
    let layout = ImageLayout::new(IMAGE_TILE_SIZE, IMAGE_TILE_SIZE);
    let mut indices = vec![77usize];

    layout.collect_affected_tile_indices(area_around(-1000.0, -1000.0, 5), &mut indices);

    assert!(indices.is_empty());
}

#[test]
fn tiles_are_numbered_row_by_row() {
    let layout = ImageLayout::new(IMAGE_TILE_SIZE * 3 - 1, IMAGE_TILE_SIZE * 2);
    assert_eq!((layout.tile_x(), layout.tile_y()), (3, 2));
    assert_eq!(layout.total_tiles(), 6);
    assert_eq!(layout.tile_coords_to_index(1, 1), Some(4));
    assert_eq!(
        layout.tile_canvas_origin(4),
        Some(TileOrigin {
            x: IMAGE_TILE_SIZE,
            y: IMAGE_TILE_SIZE
        })
    );
    assert_eq!(layout.tile_canvas_origin(6), None);
    assert_eq!(effective_radius_px(u32::MAX), u32::MAX);
    assert_eq!(effective_radius_px(4), 5);
}

#[test]
fn errors_of_images_have_messages() {
    assert_eq!(
        ImageTileAccessError::OutOfBounds.message(),
        "tile index is out of bounds"
    );
    assert_eq!(
        ImageCreateError::TooManyTiles.message(),
        "image has too many tiles for this platform"
    );
    assert_eq!(
        StoredImageError::InvalidPixelCount {
            expected: 16,
            actual: 150
        }
        .message(),
        "stored image pixel count mismatch: expected 16 bytes, got 150"
    );
    assert_eq!(
        StoredImageError::TooLarge.message(),
        "stored image dimensions are too large"
    );
}

#[test]
fn rejects_invalid_rgba8_len() {
    let image = StoredImage::new_rgba8(2, 2, vec![0; 15]);
    assert_eq!(
        image,
        Err(StoredImageError::InvalidPixelCount {
            expected: 16,
            actual: 15,
        })
    );
}

#[test]
fn collects_non_empty_tiles_from_rgba_content() {
    let width = IMAGE_TILE_SIZE + 4;
    let height = IMAGE_TILE_SIZE;
    let mut pixels = vec![0; (width * height * 4) as usize];
    pixels[(IMAGE_TILE_SIZE as usize - 1) * 4] = 1;
    pixels[(IMAGE_TILE_SIZE as usize) * 4] = 2;
    let image = StoredImage::new_rgba8(width, height, pixels).unwrap();

    let mut indices = Vec::new();
    image.collect_non_empty_tile_indices(&mut indices);

    assert_eq!(indices, vec![0, 1]);
}

#[test]
fn copies_partial_edge_tile_into_fixed_tile_buffer() {
    let width = IMAGE_TILE_SIZE + 1;
    let height = 1;
    let mut pixels = vec![0; (width * height * 4) as usize];
    let edge_pixel_offset = (IMAGE_TILE_SIZE as usize) * 4;
    pixels[edge_pixel_offset..edge_pixel_offset + 4].copy_from_slice(&[9, 8, 7, 6]);
    let image = StoredImage::new_rgba8(width, height, pixels).unwrap();

    let mut tile = Vec::new();
    image.copy_tile_rgba8(1, &mut tile).unwrap();

    assert_eq!(&tile[..4], &[9, 8, 7, 6]);
    assert!(tile[4..].iter().all(|value| *value == 0));
}

#[test]
fn stored_image_has_no_tile_beyond_its_last() {
    let image = StoredImage::new_rgba8(3, 2, (0..24).collect()).unwrap();
    assert_eq!((image.width(), image.height()), (3, 2));
    assert_eq!(image.layout().total_tiles(), 1);
    let mut tile = vec![1, 2, 3];
    assert_eq!(
        image.copy_tile_rgba8(1, &mut tile),
        Err(StoredImageError::TileOutOfBounds)
    );
    assert_eq!(tile, vec![1, 2, 3]);
    image.copy_tile_rgba8(0, &mut tile).unwrap();
    assert_eq!(tile.len(), 126 * 126 * 4);
    assert_eq!(&tile[..12], &(0..12).collect::<Vec<u8>>()[..]);
    assert_eq!(
        &tile[126 * 4..126 * 4 + 12],
        &(12..24).collect::<Vec<u8>>()[..]
    );
    assert_eq!(
        StoredImage::new_rgba8(u32::MAX, u32::MAX, vec![]),
        Err(StoredImageError::TooLarge)
    );
}
