use base64::Engine;
use image::GenericImageView;
use tile_stitch::pipeline::stitch_tiles;
use tile_stitch::TileError;

fn png_bytes(width: u32, height: u32, f: impl Fn(u32, u32) -> [u8; 4]) -> Vec<u8> {
    let mut img = image::RgbaImage::new(width, height);
    for y in 0..height {
        for x in 0..width {
            img.put_pixel(x, y, image::Rgba(f(x, y)));
        }
    }
    let mut out = Vec::new();
    image::DynamicImage::ImageRgba8(img)
        .write_to(
            &mut std::io::Cursor::new(&mut out),
            image::ImageOutputFormat::Png,
        )
        .unwrap();
    out
}

fn decode_output(s: &str) -> image::DynamicImage {
    let bytes = base64::engine::general_purpose::STANDARD.decode(s).unwrap();
    image::load_from_memory(&bytes).unwrap()
}

#[test]
fn four_tiles_form_two_by_two_grid() {
    let colors: [[u8; 4]; 4] = [
        [200, 0, 0, 255],
        [0, 200, 0, 255],
        [0, 0, 200, 255],
        [200, 200, 0, 255],
    ];
    let outcomes: Vec<Result<Vec<u8>, String>> = colors
        .iter()
        .map(|&c| Ok(png_bytes(256, 256, move |_, _| c)))
        .collect();
    let s = stitch_tiles(&outcomes, 2, 256).unwrap();
    let img = decode_output(&s);
    assert_eq!(img.width(), 512);
    assert_eq!(img.height(), 512);
    let quads = [(0u32, 0u32), (256, 0), (0, 256), (256, 256)];
    for (i, &(qx, qy)) in quads.iter().enumerate() {
        for &(dx, dy) in &[(0u32, 0u32), (255, 255), (128, 7)] {
            assert_eq!(img.get_pixel(qx + dx, qy + dy).0, colors[i]);
        }
    }
}

#[test]
fn missing_fourth_tile_leaves_blank_cell() {
    let outcomes: Vec<Result<Vec<u8>, String>> = (0..3)
        .map(|i| Ok(png_bytes(128, 128, move |_, _| [i as u8 + 1, 0, 0, 255])))
        .collect();
    let s = stitch_tiles(&outcomes, 2, 128).unwrap();
    let img = decode_output(&s);
    assert_eq!((img.width(), img.height()), (256, 256));
    assert_eq!(img.get_pixel(20, 20).0, [1, 0, 0, 255]);
    assert_eq!(img.get_pixel(200, 20).0, [2, 0, 0, 255]);
    assert_eq!(img.get_pixel(20, 200).0, [3, 0, 0, 255]);
    assert_eq!(img.get_pixel(200, 200).0, [0, 0, 0, 0]);
    assert_eq!(img.get_pixel(130, 130).0, [0, 0, 0, 0]);
}

#[test]
fn placeholder_byte_length_aborts_batch() {
    let mut outcomes: Vec<Result<Vec<u8>, String>> = (0..4)
        .map(|_| Ok(png_bytes(8, 8, |_, _| [5, 5, 5, 255])))
        .collect();
    outcomes.insert(2, Ok(vec![0u8; 2834]));
    let r = stitch_tiles(&outcomes, 2, 8);
    assert!(matches!(r, Err(TileError::InvalidTile)));
}

#[test]
fn placeholder_dimensions_abort_batch() {
    let body = png_bytes(2834, 2834, |_, _| [1, 2, 3, 255]);
    assert_ne!(body.len(), 2834);
    let outcomes: Vec<Result<Vec<u8>, String>> = vec![Ok(body)];
    let r = stitch_tiles(&outcomes, 1, 1);
    assert!(matches!(r, Err(TileError::InvalidTile)));
}

#[test]
fn transport_failure_aborts_batch() {
    let outcomes: Vec<Result<Vec<u8>, String>> = vec![
        Ok(png_bytes(8, 8, |_, _| [5, 5, 5, 255])),
        Err("connection refused".to_string()),
    ];
    let r = stitch_tiles(&outcomes, 2, 8);
    match r {
        Err(TileError::Transport(m)) => assert_eq!(m, "connection refused"),
        other => panic!("expected a transport failure, got {:?}", other),
    }
}

#[test]
fn undecodable_payload_aborts_batch() {
    let outcomes: Vec<Result<Vec<u8>, String>> = vec![Ok(b"not an image at all".to_vec())];
    let r = stitch_tiles(&outcomes, 1, 1);
    assert!(matches!(r, Err(TileError::Decode(_))));
}

#[test]
fn undersized_decoded_tile_aborts_batch() {
    let outcomes: Vec<Result<Vec<u8>, String>> =
        vec![Ok(png_bytes(16, 16, |_, _| [9, 9, 9, 255]))];
    let r = stitch_tiles(&outcomes, 1, 32);
    assert!(matches!(r, Err(TileError::Stitch)));
}

#[test]
fn empty_batch_cannot_encode() {
    let outcomes: Vec<Result<Vec<u8>, String>> = Vec::new();
    let r = stitch_tiles(&outcomes, 2, 256);
    assert!(matches!(r, Err(TileError::Encode(_))));
}

#[test]
fn round_trip_preserves_every_pixel() {
    let f0 = |x: u32, y: u32| [(x * 9) as u8, (y * 9) as u8, (x + y) as u8, 255];
    let f1 = |x: u32, y: u32| [(x * 3 + 1) as u8, (y * 5 + 2) as u8, 77, (200 + x) as u8];
    let outcomes: Vec<Result<Vec<u8>, String>> =
        vec![Ok(png_bytes(3, 3, f0)), Ok(png_bytes(3, 3, f1))];
    let s = stitch_tiles(&outcomes, 2, 3).unwrap();
    let img = decode_output(&s);
    assert_eq!((img.width(), img.height()), (6, 3));
    for y in 0..3 {
        for x in 0..3 {
            assert_eq!(img.get_pixel(x, y).0, f0(x, y));
            assert_eq!(img.get_pixel(x + 3, y).0, f1(x, y));
        }
    }
}
