use fsp::dib::create_dib_from_image;
use fsp::raster::RgbaImage;

fn image_from_fn(width: u32, height: u32, f: impl Fn(u32, u32) -> [u8; 4]) -> RgbaImage {
    let mut pixels = Vec::new();
    for y in 0..height {
        for x in 0..width {
            pixels.extend_from_slice(&f(x, y));
        }
    }
    RgbaImage::from_raw(width, height, pixels).expect("buffer fits")
}

fn le_i32(b: &[u8], at: usize) -> i32 {
    i32::from_le_bytes([b[at], b[at + 1], b[at + 2], b[at + 3]])
}

fn le_u16(b: &[u8], at: usize) -> u16 {
    u16::from_le_bytes([b[at], b[at + 1]])
}

const HEADER_SIZE: usize = 40;

#[test]
fn test_create_dib_from_image() {
    let img = image_from_fn(2, 2, |x, y| {
        if (x + y) % 2 == 0 {
            [255, 0, 0, 255]
        } else {
            [0, 255, 0, 255]
        }
    });

    let dib_data = create_dib_from_image(&img);

    let expected_header_size = HEADER_SIZE;
    assert!(dib_data.len() > expected_header_size);

    assert_eq!(le_i32(&dib_data, 4), 2);
    assert_eq!(le_i32(&dib_data, 8), 2);
    assert_eq!(le_u16(&dib_data, 14), 24);
}

#[test]
fn test_empty_image() {
    let img = image_from_fn(1, 1, |_, _| [128, 128, 128, 255]);

    let dib_data = create_dib_from_image(&img);
    assert!(dib_data.len() > 0);
}

#[test]
fn dib_rows_are_bottom_up_bgr_and_padded() {
    // 2x2: top row red, green; bottom row blue, white.
    let img = image_from_fn(2, 2, |x, y| match (x, y) {
        (0, 0) => [255, 0, 0, 255],
        (1, 0) => [0, 255, 0, 255],
        (0, 1) => [0, 0, 255, 255],
        _ => [255, 255, 255, 255],
    });
    let d = create_dib_from_image(&img);
    // Row size: 2 pixels * 3 bytes = 6, padded to 8.
    assert_eq!(d.len(), HEADER_SIZE + 16);
    assert_eq!(u32::from_le_bytes([d[0], d[1], d[2], d[3]]), 40);
    assert_eq!(le_u16(&d, 12), 1);
    assert_eq!(u32::from_le_bytes([d[16], d[17], d[18], d[19]]), 0);
    assert_eq!(u32::from_le_bytes([d[20], d[21], d[22], d[23]]), 16);
    let px = &d[HEADER_SIZE..];
    // First stored row is the bottom image row: blue, white, padding.
    assert_eq!(&px[0..8], &[255, 0, 0, 255, 255, 255, 0, 0]);
    // Then the top row: red, green, padding.
    assert_eq!(&px[8..16], &[0, 0, 255, 0, 255, 0, 0, 0]);
}

#[test]
fn from_raw_needs_exact_buffer() {
    assert!(RgbaImage::from_raw(2, 2, vec![0; 15]).is_none());
    assert!(RgbaImage::from_raw(2, 2, vec![0; 17]).is_none());
    let img = RgbaImage::from_raw(1, 2, vec![1, 2, 3, 4, 5, 6, 7, 8]).unwrap();
    assert_eq!(img.get_pixel(0, 1).0, [5, 6, 7, 8]);
}
