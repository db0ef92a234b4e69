use glaphica::model::{
    div_ceil, EmptyKey, ImageLayout, ImageLayoutError, TileImage, TileImageError, TilePos,
};

#[derive(Debug, Clone, Copy, PartialEq, Eq)]
struct TestKey(u32);

impl EmptyKey for TestKey {
    const EMPTY: Self = TestKey(u32::MAX);
}

#[test]
fn layouts_round_up_to_whole_tiles() {
    assert_eq!(div_ceil(0, 126), 0);
    assert_eq!(div_ceil(126, 126), 1);
    assert_eq!(div_ceil(127, 126), 2);
    let layout = ImageLayout::new(300, 126);
    assert_eq!((layout.tiles_per_row, layout.tiles_per_column), (3, 1));
    assert_eq!(layout.max_tiles(), 3);
    assert_eq!(layout.tile_index(TilePos { x: 2, y: 0 }), Ok(2));
    assert_eq!(
        layout.tile_index(TilePos { x: 0, y: 1 }),
        Err(ImageLayoutError::TileIndexOutOfBounds)
    );
    assert_eq!(layout.tile_pos(2), Ok(TilePos { x: 2, y: 0 }));
    assert_eq!(
        layout.tile_pos(3),
        Err(ImageLayoutError::TileIndexOutOfBounds)
    );
}

#[test]
fn set_tiles_are_dirty_and_the_others_are_empty() {
    let mut image: TileImage<TestKey> = TileImage::from_pixel_size(252, 200);
    assert_eq!(image.pixel_size(), (252, 200));
    assert_eq!((image.tiles_per_row(), image.tiles_per_column()), (2, 2));
    assert!(image.iter_dirty_tile_keys().is_empty());
    assert_eq!(image.get_tile_at(1, 1), Ok(&TestKey::EMPTY));
    assert!(TestKey::EMPTY.is_empty());

    assert_eq!(image.set_tile_at(1, 1, TestKey(9)), Ok(()));
    assert_eq!(image.set_tile(TilePos { x: 1, y: 0 }, TestKey(5)), Ok(()));
    assert_eq!(image.set_tile_at(1, 1, TestKey(7)), Ok(()));
    assert_eq!(image.get_tile(TilePos { x: 1, y: 1 }), Ok(&TestKey(7)));
    assert_eq!(image.iter_dirty_tile_keys(), vec![TestKey(5), TestKey(7)]);
    assert_eq!(
        image.set_tile_at(2, 0, TestKey(1)),
        Err(TileImageError::Layout(ImageLayoutError::TileIndexOutOfBounds))
    );
    assert_eq!(
        image.iter_all_tiles(),
        vec![
            (0, 0, TestKey::EMPTY),
            (1, 0, TestKey(5)),
            (0, 1, TestKey::EMPTY),
            (1, 1, TestKey(7)),
        ]
    );
    assert_eq!(image.iter_tiles()[3], (1, 1, &TestKey(7)));

    let mut copy = image.clone();
    assert_eq!(copy.iter_all_tiles(), image.iter_all_tiles());
    assert_eq!(copy.iter_dirty_tile_keys(), image.iter_dirty_tile_keys());
    assert_eq!(copy.set_tile_at(0, 0, TestKey(2)), Ok(()));
    assert_eq!(copy.iter_dirty_tile_keys().len(), 3);
    assert_eq!(image.get_tile_at(0, 0), Ok(&TestKey::EMPTY));
    assert_eq!(image.iter_dirty_tile_keys().len(), 2);
}

#[test]
fn layout_errors_become_tile_errors() {
    assert_eq!(
        TileImageError::from(ImageLayoutError::LayoutMismatch),
        TileImageError::Layout(ImageLayoutError::LayoutMismatch)
    );
}
