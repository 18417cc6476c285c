use tile_stitch::raster::Raster;
use tile_stitch::stitcher::stitch_grid;
use tile_stitch::TileError;

fn solid(width: u32, height: u32, p: (u8, u8, u8, u8)) -> Raster {
    let mut r = Raster::new(width, height);
    for y in 0..height {
        for x in 0..width {
            r.put_pixel(x, y, p);
        }
    }
    r
}

#[test]
fn composite_dimensions_follow_grid() {
    let tiles = vec![
        solid(128, 128, (1, 2, 3, 4)),
        solid(128, 128, (5, 6, 7, 8)),
        solid(128, 128, (9, 10, 11, 12)),
    ];
    let c = stitch_grid(&tiles, 2, 128).unwrap();
    assert_eq!(c.width(), 256);
    assert_eq!(c.height(), 256);
}

#[test]
fn tiles_land_in_row_major_cells() {
    let colors = [
        (10, 0, 0, 255),
        (0, 20, 0, 255),
        (0, 0, 30, 255),
        (40, 40, 40, 255),
    ];
    let tiles: Vec<Raster> = colors.iter().map(|&c| solid(2, 2, c)).collect();
    let c = stitch_grid(&tiles, 2, 2).unwrap();
    for b in 0..2 {
        for a in 0..2 {
            assert_eq!(c.get_pixel(a, b), colors[0]);
            assert_eq!(c.get_pixel(2 + a, b), colors[1]);
            assert_eq!(c.get_pixel(a, 2 + b), colors[2]);
            assert_eq!(c.get_pixel(2 + a, 2 + b), colors[3]);
        }
    }
}

#[test]
fn larger_tile_is_cropped_to_tile_size() {
    let mut t = Raster::new(4, 4);
    for y in 0..4 {
        for x in 0..4 {
            t.put_pixel(x, y, ((x * 16) as u8, (y * 16) as u8, 7, 255));
        }
    }
    let tiles = vec![t];
    let c = stitch_grid(&tiles, 1, 2).unwrap();
    assert_eq!(c.width(), 2);
    assert_eq!(c.height(), 2);
    for y in 0..2 {
        for x in 0..2 {
            assert_eq!(c.get_pixel(x, y), ((x * 16) as u8, (y * 16) as u8, 7, 255));
        }
    }
}

#[test]
fn undersized_tile_is_rejected() {
    let tiles = vec![solid(16, 16, (1, 1, 1, 1))];
    let r = stitch_grid(&tiles, 1, 32);
    assert!(matches!(r, Err(TileError::Stitch)));
}

#[test]
fn unfilled_cell_keeps_zeroed_pixels() {
    let tiles = vec![
        solid(2, 2, (9, 9, 9, 9)),
        solid(2, 2, (8, 8, 8, 8)),
        solid(2, 2, (7, 7, 7, 7)),
    ];
    let c = stitch_grid(&tiles, 2, 2).unwrap();
    assert_eq!(c.get_pixel(3, 3), (0, 0, 0, 0));
    assert_eq!(c.get_pixel(2, 2), (0, 0, 0, 0));
    assert_eq!(c.get_pixel(1, 3), (7, 7, 7, 7));
}

#[test]
fn put_then_get_pixel() {
    let mut r = Raster::new(3, 3);
    r.put_pixel(1, 2, (11, 22, 33, 44));
    assert_eq!(r.get_pixel(1, 2), (11, 22, 33, 44));
    assert_eq!(r.get_pixel(2, 1), (0, 0, 0, 0));
}
