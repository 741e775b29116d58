use scion::rendering::bidimensional::material::{Material2D, Texture};
use scion::rendering::color::Color;
use scion::utils::file::FileReaderError;
use std::io::Cursor;

fn png_of(image: image::DynamicImage) -> Vec<u8> {
    let mut out = Cursor::new(Vec::new());
    image.write_to(&mut out, image::ImageOutputFormat::Png).unwrap();
    out.into_inner()
}

const FALLBACK: [u8; 16] = [255, 0, 255, 255, 0, 0, 0, 255, 0, 0, 0, 255, 255, 0, 255, 255];

#[test]
fn from_png_decodes_rgba_pixels() {
    let pixels = vec![1u8, 2, 3, 4, 5, 6, 7, 8, 9, 10, 11, 12];
    let image = image::RgbaImage::from_raw(3, 1, pixels.clone()).unwrap();
    let file = png_of(image::DynamicImage::ImageRgba8(image));
    assert_ne!(file, pixels);
    let texture = Texture::from_png(&file);
    assert_eq!(texture.bytes, pixels);
    assert_eq!(texture.width, 3);
    assert_eq!(texture.height, 1);
}

#[test]
fn from_png_gives_four_bytes_for_each_pixel() {
    let image = image::RgbImage::from_raw(1, 2, vec![10, 20, 30, 40, 50, 60]).unwrap();
    let file = png_of(image::DynamicImage::ImageRgb8(image));
    let texture = Texture::from_png(&file);
    assert_eq!(texture.bytes, vec![10, 20, 30, 255, 40, 50, 60, 255]);
    assert_eq!(texture.width, 1);
    assert_eq!(texture.height, 2);
    assert_eq!(texture.bytes.len(), 4 * texture.width as usize * texture.height as usize);
}

#[test]
fn from_png_expands_grey_pixels() {
    let image = image::GrayImage::from_raw(2, 1, vec![0, 200]).unwrap();
    let file = png_of(image::DynamicImage::ImageLuma8(image));
    let texture = Texture::from_png(&file);
    assert_eq!(texture.bytes, vec![0, 0, 0, 255, 200, 200, 200, 255]);
}

#[test]
fn from_png_falls_back_on_bytes_that_are_no_png() {
    for bad in [Vec::new(), vec![1u8, 2, 3], b"not a png at all".to_vec()] {
        let texture = Texture::from_png(&bad);
        assert_eq!(texture.bytes, FALLBACK.to_vec());
        assert_eq!(texture.width, 2);
        assert_eq!(texture.height, 2);
    }
}

#[test]
fn from_png_falls_back_on_a_truncated_file() {
    let image = image::RgbaImage::from_raw(1, 1, vec![1, 2, 3, 4]).unwrap();
    let mut file = png_of(image::DynamicImage::ImageRgba8(image));
    file.truncate(file.len() / 2);
    let texture = Texture::from_png(&file);
    assert_eq!(texture.bytes, FALLBACK.to_vec());
}

#[test]
fn fallback_texture_is_a_two_by_two_checker() {
    let texture = Texture::fallback_texture();
    assert_eq!(texture.bytes, FALLBACK.to_vec());
    assert_eq!(texture.width, 2);
    assert_eq!(texture.height, 2);
}

#[test]
fn create_texture_keeps_the_low_sixteen_bits_of_a_size() {
    let texture = Texture::create_texture(Some((vec![9, 9, 9, 9], 65536 + 5, 70000)));
    assert_eq!(texture.bytes, vec![9, 9, 9, 9]);
    assert_eq!(texture.width, 5);
    assert_eq!(texture.height, 4464);
    let exact = Texture::create_texture(Some((Vec::new(), 65535, 0)));
    assert_eq!(exact.width, 65535);
    assert_eq!(exact.height, 0);
}

#[test]
fn create_texture_without_an_image_is_the_fallback() {
    let texture = Texture::create_texture(None);
    assert_eq!(texture.bytes, FALLBACK.to_vec());
    assert_eq!((texture.width, texture.height), (2, 2));
}

#[test]
fn opaque_colour_has_full_alpha() {
    assert_eq!(Color::new_rgb(1, 2, 3), Color { red: 1, green: 2, blue: 3, alpha: 255 });
}

#[test]
fn materials_hold_a_colour_or_a_path() {
    let plain = Material2D::Color(Color::new_rgb(0, 0, 0));
    let textured = Material2D::Texture("assets/taquin.png".to_string());
    assert!(matches!(plain, Material2D::Color(c) if c.alpha == 255));
    assert!(matches!(textured, Material2D::Texture(ref path) if path == "assets/taquin.png"));
}

#[test]
fn file_reader_error_keeps_its_message() {
    let e = FileReaderError::new("No such file or directory".to_string());
    assert_eq!(e.message(), "No such file or directory");
}
