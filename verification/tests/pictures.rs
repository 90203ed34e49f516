use image::{DynamicImage, ImageFormat, Rgb, RgbImage};
use std::io::Cursor;
use yyw::icon::{ico_from_png, icon_sizes};
use yyw::path::FilePath;
use yyw::picture::{load_color_image, load_png_icon, CoverFile, Pixels};

fn picture(width: u32, height: u32) -> DynamicImage {
    DynamicImage::ImageRgb8(RgbImage::from_fn(width, height, |x, y| {
        Rgb([(x * 5 % 256) as u8, (y * 7 % 256) as u8, 200])
    }))
}

fn encoded(image: &DynamicImage, format: ImageFormat) -> Vec<u8> {
    let mut bytes = Vec::new();
    image.write_to(&mut Cursor::new(&mut bytes), format).unwrap();
    bytes
}

fn cover(name: &str, bytes: &[u8]) -> Option<Pixels> {
    load_color_image(&CoverFile {
        path: FilePath::new(name.to_string()),
        bytes: Some(bytes.to_vec()),
    })
}

fn number(file: &[u8], at: usize) -> usize {
    u32::from_le_bytes([file[at], file[at + 1], file[at + 2], file[at + 3]]) as usize
}

#[test]
fn a_cover_in_pixels() {
    let png = encoded(&picture(3, 2), ImageFormat::Png);
    for name in ["m/c.png", "m/c.PNG"] {
        let pixels = cover(name, &png).unwrap();
        assert_eq!((pixels.width, pixels.height), (3, 2));
        assert_eq!(pixels.rgba[..8], [0, 0, 200, 255, 5, 0, 200, 255]);
        assert_eq!(pixels.rgba.len(), 24);
        assert_eq!(pixels.rgba[20..], [10, 7, 200, 255]);
    }
}

#[test]
fn a_cover_is_read_by_its_extension() {
    let png = encoded(&picture(3, 2), ImageFormat::Png);
    let jpeg = encoded(&picture(17, 9), ImageFormat::Jpeg);
    let pixels = cover("c.jpg", &jpeg).unwrap();
    assert_eq!((pixels.width, pixels.height, pixels.rgba.len()), (17, 9, 17 * 9 * 4));
    let same = image::load_from_memory(&jpeg).unwrap().to_rgba8();
    assert_eq!(pixels.rgba, same.into_raw());
    assert!(cover("c.jpeg", &jpeg).is_some());
    assert!(cover("c.png", &jpeg).is_none());
    assert!(cover("c.jpg", &png).is_none());
    assert!(cover("c.txt", &png).is_none());
    assert!(cover("c", &png).is_none());
    assert!(cover("c.png", &png[..30]).is_none());
    assert!(cover("c.png", b"").is_none());
    let unread = CoverFile { path: FilePath::new("c.png".to_string()), bytes: None };
    assert!(load_color_image(&unread).is_none());
}

#[test]
fn the_icon_of_the_window_fills_its_square() {
    let wide = load_png_icon(&encoded(&picture(100, 50), ImageFormat::Png)).unwrap();
    assert_eq!((wide.width, wide.height, wide.rgba.len()), (64, 32, 64 * 32 * 4));
    let tall = load_png_icon(&encoded(&picture(4, 16), ImageFormat::Jpeg)).unwrap();
    assert_eq!((tall.width, tall.height), (16, 64));
    let exact = picture(64, 64);
    let same = load_png_icon(&encoded(&exact, ImageFormat::Png)).unwrap();
    assert_eq!(same.rgba, exact.to_rgba8().into_raw());
    assert!(load_png_icon(b"no picture").is_none());
}

#[test]
fn an_icon_file_of_a_picture() {
    let source = picture(512, 256);
    let file = ico_from_png(&encoded(&source, ImageFormat::Png)).unwrap();
    assert_eq!(file[..6], [0, 0, 1, 0, 4, 0]);
    for (k, size) in icon_sizes().into_iter().enumerate() {
        let entry = 6 + 16 * k;
        let (len, at) = (number(&file, entry + 8), number(&file, entry + 12));
        let png = image::load_from_memory_with_format(&file[at..at + len], ImageFormat::Png);
        let png = png.unwrap();
        assert_eq!((png.width(), png.height()), (size, size / 2));
        let want = source.resize(size, size, image::imageops::FilterType::Lanczos3);
        assert_eq!(png.to_rgb8(), want.to_rgb8());
        assert_eq!(file[entry], (size % 256) as u8);
    }
}

#[test]
fn no_icon_file_of_other_bytes() {
    assert!(ico_from_png(b"").is_none());
    assert!(ico_from_png(&encoded(&picture(8, 8), ImageFormat::Jpeg)).is_none());
    let png = encoded(&picture(8, 8), ImageFormat::Png);
    assert!(ico_from_png(&png[..png.len() / 2]).is_none());
}

#[test]
fn a_picture_of_the_size_of_the_icon_stays_as_it_is() {
    let source = picture(256, 256);
    let file = ico_from_png(&encoded(&source, ImageFormat::Png)).unwrap();
    let entry = 6 + 16 * 3;
    let (len, at) = (number(&file, entry + 8), number(&file, entry + 12));
    let pixels = cover("x.png", &file[at..at + len]).unwrap();
    assert_eq!(pixels.rgba, source.to_rgba8().into_raw());
}
