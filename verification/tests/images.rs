use std::io::Cursor;

use poneglyph::images::{fit_size, image_source, ImageSource};

fn png(width: u32, height: u32) -> Vec<u8> {
    let img = image::DynamicImage::ImageRgb8(image::RgbImage::new(width, height));
    let mut bytes = Vec::new();
    img.write_to(&mut Cursor::new(&mut bytes), image::ImageFormat::Png).unwrap();
    bytes
}

#[test]
fn image_fits_at_its_natural_size_when_there_is_room() {
    let bytes = png(20, 10);
    assert_eq!(fit_size("a.png", Some(&bytes), (1, 1), 100, 100), Some((20, 10)));
}

#[test]
fn image_shrinks_keeping_its_aspect_ratio() {
    let bytes = png(20, 10);
    assert_eq!(fit_size("a.png", Some(&bytes), (2, 2), 5, 100), Some((5, 3)));
}

#[test]
fn zero_font_and_space_count_as_one_cell() {
    let bytes = png(20, 10);
    assert_eq!(fit_size("a.png", Some(&bytes), (0, 0), 0, 0), Some((1, 1)));
}

#[test]
fn unreadable_or_undecodable_images_take_no_cells() {
    let bytes = png(4, 4);
    assert_eq!(fit_size("", Some(&bytes), (1, 1), 10, 10), None);
    assert_eq!(fit_size("a.png", None, (1, 1), 10, 10), None);
    assert_eq!(fit_size("a.png", Some(b"not an image"), (1, 1), 10, 10), None);
}

#[test]
fn image_sources_follow_the_target() {
    assert_eq!(image_source("", true, "docs"), ImageSource::Missing);
    assert_eq!(image_source("https://x.org/a.png", false, "docs"), ImageSource::Missing);
    assert_eq!(
        image_source("https://x.org/a.png", true, "docs"),
        ImageSource::Remote("https://x.org/a.png".into())
    );
    assert_eq!(image_source("/abs/a.png", false, "docs"), ImageSource::File("/abs/a.png".into()));
    assert_eq!(image_source("img/a.png", false, "docs"), ImageSource::File("docs/img/a.png".into()));
    assert_eq!(image_source("a.png", false, "docs/"), ImageSource::File("docs/a.png".into()));
    assert_eq!(image_source("a.png", false, ""), ImageSource::File("a.png".into()));
}
