use fsp::capture::{
    bgra_buffer_len, capture_file_name, capture_screen, capture_size, is_stale_capture,
    select_recent_captures, window_capture_size, CaptureEntry, CaptureError, MonitorCapture,
    ScreenRect, MAX_CAPTURE_AGE_NANOS,
};
use fsp::raster::{bgra_to_rgba, crop, crop_capture_png, decode_image, encode_capture_png, ImageOpError, RgbaImage};
use fsp::annotation::{AnnotationLayer, FlattenError};

fn rect(l: i32, t: i32, r: i32, b: i32) -> ScreenRect {
    ScreenRect { left: l, top: t, right: r, bottom: b }
}

#[test]
fn capture_sizes() {
    assert_eq!(capture_size(rect(-1920, 0, 0, 1080)), Ok((1920, 1080)));
    assert_eq!(capture_size(rect(10, 10, 10, 20)), Err(CaptureError::InvalidCaptureDimensions));
    assert_eq!(window_capture_size(rect(0, 50, 30, 40)), Err(CaptureError::InvalidWindowDimensions));
    assert_eq!(window_capture_size(rect(5, 5, 8, 9)), Ok((3, 4)));
    assert_eq!(bgra_buffer_len(1920, 1080), 8_294_400);
}

#[test]
fn capture_names() {
    assert_eq!(capture_file_name("capture", 1725029869123), "capture_1725029869123.png");
    assert_eq!(capture_file_name("region", 0), "region_0.png");
}

#[test]
fn capture_screen_keeps_the_path() {
    let c = MonitorCapture {
        path: "C:\\t\\capture_1.png".to_string(),
        rect: rect(0, 0, 1, 1),
        pixels: vec![0; 4],
        width: 1,
        height: 1,
    };
    assert_eq!(capture_screen(Ok(c)), Ok("C:\\t\\capture_1.png".to_string()));
    assert_eq!(capture_screen(Err(CaptureError::NoActiveWindow)), Err(CaptureError::NoActiveWindow));
}

#[test]
fn stale_captures() {
    assert!(is_stale_capture(Some("png"), Some(MAX_CAPTURE_AGE_NANOS + 1)));
    assert!(!is_stale_capture(Some("png"), Some(MAX_CAPTURE_AGE_NANOS)));
    assert!(!is_stale_capture(Some("jpg"), Some(u128::MAX)));
    assert!(!is_stale_capture(Some("png"), None));
    assert!(!is_stale_capture(None, Some(u128::MAX)));
}

fn entry(name: &str, ext: Option<&str>, modified: i128) -> CaptureEntry {
    CaptureEntry {
        path: format!("dir/{}", name),
        file_name: Some(name.to_string()),
        extension: ext.map(|e| e.to_string()),
        modified,
    }
}

#[test]
fn recent_captures_newest_first() {
    let entries = vec![
        entry("capture_1.png", Some("png"), 100),
        entry("region_2.png", Some("png"), 900),
        entry("capture_2.png", Some("png"), 300),
        entry("capture_3.jpg", Some("jpg"), 500),
        entry("capture_4.png", Some("png"), 300),
        entry("capture_5.png", Some("png"), -5),
    ];
    assert_eq!(
        select_recent_captures(&entries, 10),
        vec!["dir/capture_2.png", "dir/capture_4.png", "dir/capture_1.png", "dir/capture_5.png"]
    );
    assert_eq!(select_recent_captures(&entries, 2), vec!["dir/capture_2.png", "dir/capture_4.png"]);
    assert!(select_recent_captures(&entries, 0).is_empty());
}

#[test]
fn swap_red_blue() {
    assert_eq!(bgra_to_rgba(&[1, 2, 3, 4, 5, 6, 7, 8, 9]), vec![3, 2, 1, 4, 7, 6, 5, 8, 9]);
}

#[test]
fn png_roundtrip_turns_bgra_into_rgba() {
    let bgra = vec![10, 20, 30, 255, 40, 50, 60, 128];
    let png = encode_capture_png(&bgra, 2, 1).expect("encodes");
    assert_eq!(&png[0..8], &[0x89, b'P', b'N', b'G', 0x0D, 0x0A, 0x1A, 0x0A]);
    let img = decode_image(&png, "png").expect("decodes");
    assert_eq!(img.width(), 2);
    assert_eq!(img.height(), 1);
    assert_eq!(img.as_raw(), &vec![30, 20, 10, 255, 60, 50, 40, 128]);
}

#[test]
fn crop_clamps_to_the_image() {
    let pixels: Vec<u8> = (0..(3 * 3 * 4)).map(|i| i as u8).collect();
    let img = RgbaImage::from_raw(3, 3, pixels).unwrap();
    let c = crop(&img, 1, 1, 10, 10);
    assert_eq!(c.width(), 2);
    assert_eq!(c.height(), 2);
    assert_eq!(c.as_raw(), &vec![16, 17, 18, 19, 20, 21, 22, 23, 28, 29, 30, 31, 32, 33, 34, 35]);
    let off = crop(&img, 5, 0, 2, 2);
    assert_eq!(off.width(), 0);
    assert_eq!(off.height(), 2);
}

#[test]
fn crop_capture_png_cuts_region() {
    let bgra: Vec<u8> = (0..(4 * 2 * 4)).map(|i| i as u8).collect();
    let png = encode_capture_png(&bgra, 4, 2).unwrap();
    let region = crop_capture_png(&png, "png", 2, 1, 2, 5).unwrap();
    let img = decode_image(&region, "png").unwrap();
    assert_eq!((img.width(), img.height()), (2, 1));
    assert_eq!(img.as_raw(), &vec![26, 25, 24, 27, 30, 29, 28, 31]);
    assert_eq!(crop_capture_png(&[1, 2, 3], "png", 0, 0, 1, 1), Err(ImageOpError::Decode));
}

#[test]
fn flatten_is_not_available_yet() {
    let mut layer: AnnotationLayer<u8> = AnnotationLayer::new();
    layer.add_annotation(3);
    layer.add_annotation(4);
    assert_eq!(layer.annotations, vec![3, 4]);
    assert_eq!(layer.selected, None);
    assert_eq!(layer.flatten_to_image(b"not an image", "png").err(), Some(FlattenError::Background));
    let png = encode_capture_png(&[1, 2, 3, 4], 1, 1).unwrap();
    assert_eq!(layer.flatten_to_image(&png, "png").err(), Some(FlattenError::NotImplemented));
}

#[test]
fn files_are_read_by_their_extension() {
    let png = encode_capture_png(&[1, 2, 3, 4], 1, 1).unwrap();
    assert!(decode_image(&png, "PNG").is_ok());
    assert_eq!(decode_image(&png, "").err(), Some(ImageOpError::Decode));
    assert_eq!(decode_image(&png, "txt").err(), Some(ImageOpError::Decode));
    assert_eq!(decode_image(&png, "jpg").err(), Some(ImageOpError::Decode));
    assert_eq!(crop_capture_png(&png, "bmp", 0, 0, 1, 1), Err(ImageOpError::Decode));
    let mut layer: AnnotationLayer<u8> = AnnotationLayer::new();
    layer.add_annotation(1);
    assert_eq!(layer.flatten_to_image(&png, "txt").err(), Some(FlattenError::Background));
}

fn png_of(img: image::DynamicImage) -> Vec<u8> {
    let mut out = std::io::Cursor::new(Vec::new());
    img.write_to(&mut out, image::ImageFormat::Png).unwrap();
    out.into_inner()
}

#[test]
fn crop_keeps_the_layout_of_the_file() {
    let rgb = image::RgbImage::from_raw(3, 2, (0..18).collect()).unwrap();
    let region = crop_capture_png(&png_of(image::DynamicImage::ImageRgb8(rgb)), "png", 1, 0, 2, 2).unwrap();
    let back = image::load_from_memory(&region).unwrap();
    assert_eq!(back.color(), image::ColorType::Rgb8);
    assert_eq!(back.as_bytes(), &[3, 4, 5, 6, 7, 8, 12, 13, 14, 15, 16, 17]);

    let gray: image::ImageBuffer<image::Luma<u16>, Vec<u16>> =
        image::ImageBuffer::from_raw(2, 2, vec![1000, 2000, 3000, 4000]).unwrap();
    let region = crop_capture_png(&png_of(image::DynamicImage::ImageLuma16(gray)), "png", 1, 0, 5, 5).unwrap();
    let back = image::load_from_memory(&region).unwrap();
    assert_eq!(back.color(), image::ColorType::L16);
    assert_eq!(back.as_luma16().unwrap().as_raw(), &vec![2000, 4000]);
}
