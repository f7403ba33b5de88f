use orbgame::{
    Blit, Camera, Image, Layer, Point, Rectangle, RenderTarget, TileMap, TileMapRenderObject,
    TileWindow,
};

/// A tileset of `columns` by `rows` sprites of `size` pixels. Each pixel of
/// sprite `n` holds `1000 * (n + 1) + 10 * y + x`, with `(x, y)` counted from
/// the sprite's corner.
fn sheet(columns: u32, rows: u32, size: u32) -> Image {
    let width = columns * size;
    let height = rows * size;
    let mut data = Vec::new();
    for y in 0..height {
        for x in 0..width {
            let sprite = (y / size) * columns + x / size;
            data.push(1000 * (sprite + 1) + 10 * (y % size) + x % size);
        }
    }
    Image::new(width, height, data).unwrap()
}

fn map_of(rows: usize, columns: usize, tile_size: u32, layers: Vec<Vec<i32>>) -> TileMap {
    TileMap {
        layer_count: layers.len(),
        row_count: rows,
        column_count: columns,
        tile_size,
        blocked_tiles: vec![],
        layers: layers.into_iter().map(|tiles| Layer { tiles }).collect(),
    }
}

fn camera(x: i32, y: i32, width: u32, height: u32) -> Camera {
    Camera::new(Rectangle::new(x, y, width, height), Point::new(10000, 10000))
}

fn cells(blits: &[Blit]) -> Vec<(usize, usize, usize)> {
    blits.iter().map(|b| (b.layer, b.row, b.column)).collect()
}

#[test]
fn image_needs_one_value_per_pixel() {
    assert!(Image::new(2, 3, vec![0; 6]).is_some());
    assert!(Image::new(2, 3, vec![0; 5]).is_none());
    assert!(Image::new(2, 3, vec![0; 7]).is_none());
    assert!(Image::new(0, 3, vec![]).is_some());
    assert!(Image::new(0, 0, vec![1]).is_none());
    let image = Image::new(3, 2, vec![1, 2, 3, 4, 5, 6]).unwrap();
    assert_eq!(3, image.width());
    assert_eq!(2, image.height());
    assert_eq!(&vec![1, 2, 3, 4, 5, 6], image.data());
    assert_eq!(1, image.pixel(0, 0));
    assert_eq!(3, image.pixel(2, 0));
    assert_eq!(4, image.pixel(0, 1));
    assert_eq!(6, image.pixel(2, 1));
    assert_eq!(image, image.clone());
}

#[test]
fn new_target_is_blank() {
    let target = RenderTarget::new(3, 2);
    assert_eq!(3, target.width());
    assert_eq!(2, target.height());
    assert_eq!(&vec![0; 6], target.data());
    let empty = RenderTarget::new(0, 5);
    assert!(empty.data().is_empty());
    let empty = RenderTarget::new(5, 0);
    assert!(empty.data().is_empty());
}

#[test]
fn set_pixel_changes_one_pixel() {
    let mut target = RenderTarget::new(3, 2);
    target.set_pixel(2, 1, 9);
    target.set_pixel(1, 0, 7);
    assert_eq!(&vec![0, 7, 0, 0, 0, 9], target.data());
    assert_eq!(9, target.pixel(2, 1));
    assert_eq!(7, target.pixel(1, 0));
    assert_eq!(0, target.pixel(0, 1));
    assert_eq!(target, target.clone());
}

#[test]
fn visible_window_of_a_scrolled_camera() {
    let renderer = TileMapRenderObject;
    let window = renderer.visible_window(&camera(48, 0, 64, 64), 32).unwrap();
    assert_eq!(1, window.start_column);
    assert!(window.end_column >= 1 + 2);
    assert_eq!(
        TileWindow { start_column: 1, end_column: 3, start_row: 0, end_row: 2 },
        window
    );
}

#[test]
fn visible_window_rounds_start_down_and_span_up() {
    let renderer = TileMapRenderObject;
    assert_eq!(
        Some(TileWindow { start_column: 0, end_column: 1, start_row: 3, end_row: 6 }),
        renderer.visible_window(&camera(31, 96, 1, 65), 32)
    );
    assert_eq!(
        Some(TileWindow { start_column: -1, end_column: -1, start_row: -2, end_row: 0 }),
        renderer.visible_window(&camera(-1, -33, 0, 64), 32)
    );
    assert_eq!(
        Some(TileWindow {
            start_column: 2147483647,
            end_column: 2147483647 + 4294967295,
            start_row: -2147483648,
            end_row: -2147483648,
        }),
        renderer.visible_window(&camera(i32::MAX, i32::MIN, u32::MAX, 0), 1)
    );
    assert_eq!(
        Some(TileWindow { start_column: 0, end_column: 1, start_row: -1, end_row: 0 }),
        renderer.visible_window(&camera(i32::MAX, i32::MIN, u32::MAX, u32::MAX), u32::MAX)
    );
}

#[test]
fn visible_window_needs_tiles_with_extent() {
    assert_eq!(None, TileMapRenderObject.visible_window(&camera(0, 0, 64, 64), 0));
}

#[test]
fn visible_tiles_in_drawing_order() {
    let map = map_of(2, 2, 2, vec![vec![0, 1, 2, 3], vec![3, 2, 1, 0]]);
    let blits = TileMapRenderObject.visible_tiles(
        &Rectangle::new(0, 0, 4, 4),
        &camera(0, 0, 4, 4),
        &map,
        &sheet(2, 2, 2),
    );
    assert_eq!(
        vec![
            (0, 0, 0),
            (0, 0, 1),
            (0, 1, 0),
            (0, 1, 1),
            (1, 0, 0),
            (1, 0, 1),
            (1, 1, 0),
            (1, 1, 1)
        ],
        cells(&blits)
    );
    assert_eq!(
        Blit { layer: 0, row: 1, column: 1, src_x: 2, src_y: 2, dst_x: 2, dst_y: 2, size: 2 },
        blits[3]
    );
    assert_eq!(
        Blit { layer: 1, row: 0, column: 1, src_x: 0, src_y: 2, dst_x: 2, dst_y: 0, size: 2 },
        blits[5]
    );
}

#[test]
fn visible_tiles_skip_cells_without_tile() {
    let map = map_of(2, 2, 2, vec![vec![0, -1, -1, 3], vec![-1, -1, 1, -1]]);
    let blits = TileMapRenderObject.visible_tiles(
        &Rectangle::new(0, 0, 4, 4),
        &camera(0, 0, 4, 4),
        &map,
        &sheet(2, 2, 2),
    );
    assert_eq!(vec![(0, 0, 0), (0, 1, 1), (1, 1, 0)], cells(&blits));
    // The cell in row 0 and column 1 has no tile on any layer.
    assert!(blits.iter().all(|b| (b.row, b.column) != (0, 1)));
    let empty = map_of(2, 2, 2, vec![vec![-1; 4], vec![-1; 4]]);
    let blits = TileMapRenderObject.visible_tiles(
        &Rectangle::new(0, 0, 4, 4),
        &camera(0, 0, 4, 4),
        &empty,
        &sheet(2, 2, 2),
    );
    assert!(blits.is_empty());
}

#[test]
fn visible_tiles_skip_tiles_outside_of_the_tileset() {
    let map = map_of(1, 5, 2, vec![vec![4, -2, 3, i32::MAX, i32::MIN]]);
    let blits = TileMapRenderObject.visible_tiles(
        &Rectangle::new(0, 0, 10, 2),
        &camera(0, 0, 10, 2),
        &map,
        &sheet(2, 2, 2),
    );
    assert_eq!(vec![(0, 0, 2)], cells(&blits));
    // A tileset that is smaller than a tile holds no sprite.
    let narrow = Image::new(1, 4, vec![0; 4]).unwrap();
    let map = map_of(1, 2, 2, vec![vec![0, 1]]);
    let blits = TileMapRenderObject.visible_tiles(
        &Rectangle::new(0, 0, 4, 2),
        &camera(0, 0, 4, 2),
        &map,
        &narrow,
    );
    assert!(blits.is_empty());
    // A strip of a pixel too few has one row of sprites, not two.
    let strip = Image::new(4, 3, vec![0; 12]).unwrap();
    let map = map_of(1, 4, 2, vec![vec![0, 1, 2, 3]]);
    let blits = TileMapRenderObject.visible_tiles(
        &Rectangle::new(0, 0, 8, 2),
        &camera(0, 0, 8, 2),
        &map,
        &strip,
    );
    assert_eq!(vec![(0, 0, 0), (0, 0, 1)], cells(&blits));
}

#[test]
fn visible_tiles_cull_to_the_window_and_one_cell_more() {
    // Ten by ten cells of 32 pixels, every cell with tile 0.
    let map = map_of(10, 10, 32, vec![vec![0; 100]]);
    let blits = TileMapRenderObject.visible_tiles(
        &Rectangle::new(0, 0, 64, 64),
        &camera(48, 0, 64, 64),
        &map,
        &sheet(1, 1, 32),
    );
    // Columns 1 and 2 are spanned, column 3 is the one more; rows 0 to 2.
    let mut expected = Vec::new();
    for row in 0..3 {
        for column in 1..4 {
            expected.push((0, row, column));
        }
    }
    assert_eq!(expected, cells(&blits));
    // The fraction of a tile that the camera has scrolled shifts the tiles.
    assert_eq!(-16, blits[0].dst_x);
    assert_eq!(0, blits[0].dst_y);
    assert_eq!(16, blits[1].dst_x);
    assert_eq!(48, blits[2].dst_x);
    assert_eq!(32, blits[3].dst_y);
    assert_eq!(64, blits[8].dst_y);
}

#[test]
fn visible_tiles_clamp_the_window_to_the_map() {
    let map = map_of(2, 3, 32, vec![vec![0; 6]]);
    // The camera sees far more than the map holds.
    let blits = TileMapRenderObject.visible_tiles(
        &Rectangle::new(0, 0, 640, 640),
        &camera(0, 0, 640, 640),
        &map,
        &sheet(1, 1, 32),
    );
    assert_eq!(6, blits.len());
    // The camera starts left of and above the map.
    let blits = TileMapRenderObject.visible_tiles(
        &Rectangle::new(0, 0, 64, 64),
        &camera(-40, -50, 64, 64),
        &map,
        &sheet(1, 1, 32),
    );
    assert_eq!(vec![(0, 0, 0)], cells(&blits));
    assert_eq!(40, blits[0].dst_x);
    assert_eq!(50, blits[0].dst_y);
    // The camera ends above the map.
    let blits = TileMapRenderObject.visible_tiles(
        &Rectangle::new(0, 0, 64, 64),
        &camera(-40, -70, 64, 64),
        &map,
        &sheet(1, 1, 32),
    );
    assert!(blits.is_empty());
    // The camera is past the map.
    let blits = TileMapRenderObject.visible_tiles(
        &Rectangle::new(0, 0, 64, 64),
        &camera(96, 0, 64, 64),
        &map,
        &sheet(1, 1, 32),
    );
    assert!(blits.is_empty());
    let blits = TileMapRenderObject.visible_tiles(
        &Rectangle::new(0, 0, 64, 64),
        &camera(-200, -200, 64, 64),
        &map,
        &sheet(1, 1, 32),
    );
    assert!(blits.is_empty());
}

#[test]
fn visible_tiles_are_placed_from_the_bounds() {
    let map = map_of(1, 2, 4, vec![vec![0, 0]]);
    let blits = TileMapRenderObject.visible_tiles(
        &Rectangle::new(100, -50, 8, 4),
        &camera(1, 2, 8, 4),
        &map,
        &sheet(1, 1, 4),
    );
    assert_eq!(2, blits.len());
    assert_eq!((99, -52), (blits[0].dst_x, blits[0].dst_y));
    assert_eq!((103, -52), (blits[1].dst_x, blits[1].dst_y));
}

#[test]
fn nothing_is_drawn_without_extent() {
    let map = map_of(2, 2, 2, vec![vec![0; 4]]);
    let renderer = TileMapRenderObject;
    assert!(renderer
        .visible_tiles(&Rectangle::new(0, 0, 0, 4), &camera(0, 0, 4, 4), &map, &sheet(1, 1, 2))
        .is_empty());
    assert!(renderer
        .visible_tiles(&Rectangle::new(0, 0, 4, 0), &camera(0, 0, 4, 4), &map, &sheet(1, 1, 2))
        .is_empty());
    assert_eq!(
        None,
        renderer.render_self(&Rectangle::new(3, 3, 0, 4), &camera(0, 0, 4, 4), &map, &sheet(1, 1, 2))
    );
    assert_eq!(
        None,
        renderer.render_self(&Rectangle::new(3, 3, 4, 0), &camera(0, 0, 4, 4), &map, &sheet(1, 1, 2))
    );
    let flat = map_of(2, 2, 0, vec![vec![0; 4]]);
    assert!(renderer
        .visible_tiles(&Rectangle::new(0, 0, 4, 4), &camera(0, 0, 4, 4), &flat, &sheet(1, 1, 2))
        .is_empty());
    let mut target = RenderTarget::new(4, 4);
    renderer.paint(&mut target, &Rectangle::new(0, 0, 4, 4), &camera(0, 0, 4, 4), &flat, &sheet(1, 1, 2));
    assert_eq!(&vec![0; 16], target.data());
    renderer.paint(&mut target, &Rectangle::new(0, 0, 0, 4), &camera(0, 0, 4, 4), &map, &sheet(1, 1, 2));
    assert_eq!(&vec![0; 16], target.data());
}

#[test]
fn blit_copies_a_square() {
    let mut target = RenderTarget::new(4, 3);
    let blit =
        Blit { layer: 0, row: 0, column: 0, src_x: 2, src_y: 0, dst_x: 1, dst_y: 1, size: 2 };
    TileMapRenderObject.draw_render_target(&mut target, &sheet(2, 2, 2), &blit);
    let expected = vec![
        0,    0,    0, 0,
        0, 2000, 2001, 0,
        0, 2010, 2011, 0,
    ];
    assert_eq!(&expected, target.data());
}

#[test]
fn blit_is_clipped_to_the_target() {
    let image = sheet(1, 1, 3);
    let renderer = TileMapRenderObject;
    let blit = |dst_x: i64, dst_y: i64| Blit {
        layer: 0,
        row: 0,
        column: 0,
        src_x: 0,
        src_y: 0,
        dst_x,
        dst_y,
        size: 3,
    };
    // Over the top-left corner.
    let mut target = RenderTarget::new(2, 2);
    renderer.draw_render_target(&mut target, &image, &blit(-2, -1));
    assert_eq!(&vec![1012, 0, 1022, 0], target.data());
    // Over the right edge: no pixel goes to the start of the next row.
    let mut target = RenderTarget::new(2, 2);
    renderer.draw_render_target(&mut target, &image, &blit(1, 0));
    assert_eq!(&vec![0, 1000, 0, 1010], target.data());
    // Over the bottom edge.
    let mut target = RenderTarget::new(2, 2);
    renderer.draw_render_target(&mut target, &image, &blit(0, 1));
    assert_eq!(&vec![0, 0, 1000, 1001], target.data());
    // Off the target on every side.
    for (x, y) in [(2, 0), (0, 2), (-3, 0), (0, -3), (i64::MAX, 0), (0, i64::MIN), (i64::MIN, i64::MAX)]
    {
        let mut target = RenderTarget::new(2, 2);
        renderer.draw_render_target(&mut target, &image, &blit(x, y));
        assert_eq!(&vec![0; 4], target.data());
    }
    // A target without pixels.
    let mut target = RenderTarget::new(0, 0);
    renderer.draw_render_target(&mut target, &image, &blit(0, 0));
    assert!(target.data().is_empty());
}

#[test]
fn blit_is_clipped_to_the_image() {
    let image = sheet(1, 1, 2);
    let renderer = TileMapRenderObject;
    let mut target = RenderTarget::new(3, 3);
    // The square starts at the last pixel of the image.
    let blit =
        Blit { layer: 0, row: 0, column: 0, src_x: 1, src_y: 1, dst_x: 0, dst_y: 0, size: 3 };
    renderer.draw_render_target(&mut target, &image, &blit);
    assert_eq!(&vec![1011, 0, 0, 0, 0, 0, 0, 0, 0], target.data());
    // The square lies outside of the image.
    let mut target = RenderTarget::new(3, 3);
    let blit = Blit {
        layer: 0,
        row: 0,
        column: 0,
        src_x: 2,
        src_y: u32::MAX,
        dst_x: 0,
        dst_y: 0,
        size: u32::MAX,
    };
    renderer.draw_render_target(&mut target, &image, &blit);
    assert_eq!(&vec![0; 9], target.data());
    // A square without extent.
    let blit =
        Blit { layer: 0, row: 0, column: 0, src_x: 0, src_y: 0, dst_x: 0, dst_y: 0, size: 0 };
    renderer.draw_render_target(&mut target, &image, &blit);
    assert_eq!(&vec![0; 9], target.data());
}

#[test]
fn render_paints_the_tiles_of_the_map() {
    let map = map_of(2, 2, 2, vec![vec![0, 1, 2, 3]]);
    let target = TileMapRenderObject
        .render_self(&Rectangle::new(7, 9, 4, 4), &camera(0, 0, 4, 4), &map, &sheet(2, 2, 2))
        .unwrap();
    assert_eq!(4, target.width());
    assert_eq!(4, target.height());
    let expected = vec![
        1000, 1001, 2000, 2001,
        1010, 1011, 2010, 2011,
        3000, 3001, 4000, 4001,
        3010, 3011, 4010, 4011,
    ];
    assert_eq!(&expected, target.data());
}

#[test]
fn render_scrolls_by_parts_of_a_tile() {
    let map = map_of(2, 3, 2, vec![vec![0, 1, 2, 3, 0, 1]]);
    let target = TileMapRenderObject
        .render_self(&Rectangle::new(0, 0, 4, 3), &camera(1, 1, 4, 3), &map, &sheet(2, 2, 2))
        .unwrap();
    let expected = vec![
        1011, 2010, 2011, 3010,
        4001, 1000, 1001, 2000,
        4011, 1010, 1011, 2010,
    ];
    assert_eq!(&expected, target.data());
}

#[test]
fn render_leaves_pixels_without_tile_blank() {
    let map = map_of(1, 2, 2, vec![vec![-1, 1]]);
    let target = TileMapRenderObject
        .render_self(&Rectangle::new(0, 0, 6, 3), &camera(0, 0, 6, 3), &map, &sheet(2, 2, 2))
        .unwrap();
    let expected = vec![
        0, 0, 2000, 2001, 0, 0,
        0, 0, 2010, 2011, 0, 0,
        0, 0,    0,    0, 0, 0,
    ];
    assert_eq!(&expected, target.data());
}

#[test]
fn later_layers_are_painted_over_earlier_ones() {
    let map = map_of(1, 3, 2, vec![vec![0, 0, 0], vec![-1, 3, -1], vec![2, -1, -1]]);
    let target = TileMapRenderObject
        .render_self(&Rectangle::new(0, 0, 6, 2), &camera(0, 0, 6, 2), &map, &sheet(2, 2, 2))
        .unwrap();
    let expected = vec![
        3000, 3001, 4000, 4001, 1000, 1001,
        3010, 3011, 4010, 4011, 1010, 1011,
    ];
    assert_eq!(&expected, target.data());
}

#[test]
fn paint_keeps_what_it_does_not_cover() {
    let map = map_of(1, 1, 2, vec![vec![0]]);
    let mut target = RenderTarget::new(4, 4);
    for y in 0..4 {
        for x in 0..4 {
            target.set_pixel(x, y, 7);
        }
    }
    TileMapRenderObject.paint(
        &mut target,
        &Rectangle::new(1, 1, 2, 2),
        &camera(0, 0, 2, 2),
        &map,
        &sheet(1, 1, 2),
    );
    let expected = vec![
        7,    7,    7, 7,
        7, 1000, 1001, 7,
        7, 1010, 1011, 7,
        7,    7,    7, 7,
    ];
    assert_eq!(&expected, target.data());
}

#[test]
fn paint_clips_to_a_small_target() {
    // The camera sees sixteen by sixteen pixels, the target holds three by two.
    let map = map_of(4, 4, 4, vec![vec![0; 16]]);
    let mut target = RenderTarget::new(3, 2);
    TileMapRenderObject.paint(
        &mut target,
        &Rectangle::new(-2, -3, 16, 16),
        &camera(0, 0, 16, 16),
        &map,
        &sheet(1, 1, 4),
    );
    assert_eq!(3, target.width());
    assert_eq!(2, target.height());
    assert_eq!(&vec![1032, 1033, 1030, 1002, 1003, 1000], target.data());
}

#[test]
fn paint_with_a_window_past_the_map() {
    let map = map_of(1, 1, 2, vec![vec![0]]);
    let mut target = RenderTarget::new(4, 4);
    TileMapRenderObject.paint(
        &mut target,
        &Rectangle::new(0, 0, 4, 4),
        &camera(-1, -1, 400, 400),
        &map,
        &sheet(1, 1, 2),
    );
    let expected = vec![
        0,    0,    0, 0,
        0, 1000, 1001, 0,
        0, 1010, 1011, 0,
        0,    0,    0, 0,
    ];
    assert_eq!(&expected, target.data());
}

#[test]
fn paint_ignores_layers_that_the_map_does_not_count() {
    let mut map = map_of(1, 1, 2, vec![vec![-1], vec![0]]);
    map.layer_count = 1;
    let mut target = RenderTarget::new(2, 2);
    TileMapRenderObject.paint(
        &mut target,
        &Rectangle::new(0, 0, 2, 2),
        &camera(0, 0, 2, 2),
        &map,
        &sheet(1, 1, 2),
    );
    assert_eq!(&vec![0; 4], target.data());
    map.layer_count = 5;
    TileMapRenderObject.paint(
        &mut target,
        &Rectangle::new(0, 0, 2, 2),
        &camera(0, 0, 2, 2),
        &map,
        &sheet(1, 1, 2),
    );
    assert_eq!(&vec![1000, 1001, 1010, 1011], target.data());
}
