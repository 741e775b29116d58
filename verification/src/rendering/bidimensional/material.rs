use vstd::prelude::*;
use crate::rendering::color::Color;

verus! {

/// What a shape is drawn with.
#[derive(Clone, Debug)]
pub enum Material2D {
    /// A plain colour.
    Color(Color),
    /// The texture found at this path.
    Texture(String),
}

/// An image as rows of RGBA pixels, four bytes each.
#[derive(Clone, Debug)]
pub struct Texture {
    pub bytes: Vec<u8>,
    pub width: u16,
    pub height: u16,
}

/// What a texture is made from: the RGBA bytes of an image, its width and its height.
pub struct DecodedImage {
    pub pixels: Seq<u8>,
    pub width: u32,
    pub height: u32,
}

/// The image that the bytes of a PNG file decode to, or nothing where they are no PNG file.
pub uninterp spec fn png_rgba8(bytes: Seq<u8>) -> Option<DecodedImage>;

/// The low sixteen bits of a size.
pub open spec fn low_bits(size: u32) -> u16 {
    (size % 0x1_0000) as u16
}

/// The pixels of the texture that stands for one that could not be loaded:
/// two by two, magenta and black in a checker.
pub open spec fn fallback_pixels() -> Seq<u8> {
    seq![255u8, 0u8, 255u8, 255u8, 0u8, 0u8, 0u8, 255u8, 0u8, 0u8, 0u8, 255u8, 255u8, 0u8, 255u8, 255u8]
}

/// The texture as the contracts see it.
pub struct TextureModel {
    pub bytes: Seq<u8>,
    pub width: u16,
    pub height: u16,
}

/// The texture made from a decoded image, or the fallback where there is
/// none. A width or a height keeps its low sixteen bits only.
pub open spec fn texture_of(decoded: Option<DecodedImage>) -> TextureModel {
    match decoded {
        Some(image) => TextureModel {
            bytes: image.pixels,
            width: low_bits(image.width),
            height: low_bits(image.height),
        },
        None => TextureModel { bytes: fallback_pixels(), width: 2, height: 2 },
    }
}

/// Decodes a PNG file held in memory into RGBA bytes, with
/// `image::load_from_memory_with_format`, `DynamicImage::to_rgba8`,
/// `ImageBuffer::dimensions` and `ImageBuffer::into_raw`. Believed of them:
/// the outcome depends on the bytes alone, and the buffer of a decoded image
/// holds four bytes for each of its `width * height` pixels.
#[verifier::external_body]
fn decode_png_rgba8(bytes: &[u8]) -> (r: Option<(Vec<u8>, u32, u32)>)
    ensures
        match r {
            Some((pixels, width, height)) => png_rgba8(bytes@) == Some(
                DecodedImage { pixels: pixels@, width, height },
            ) && pixels@.len() == 4 * width * height,
            None => png_rgba8(bytes@) is None,
        },
{
    match image::load_from_memory_with_format(bytes, image::ImageFormat::Png) {
        Ok(decoded) => {
            let rgba = decoded.to_rgba8();
            let (width, height) = rgba.dimensions();
            Some((rgba.into_raw(), width, height))
        },
        Err(_) => None,
    }
}

impl Texture {
    /// The pixels and the size of the texture.
    pub open spec fn view(&self) -> TextureModel {
        TextureModel { bytes: self.bytes@, width: self.width, height: self.height }
    }

    /// The texture that stands for one that could not be loaded.
    pub fn fallback_texture() -> (t: Texture)
        ensures
            t@ == texture_of(None),
    {
        let mut bytes: Vec<u8> = Vec::new();
        let mut i: usize = 0;
        while i < 4
            invariant
                0 <= i <= 4,
                bytes@ =~= fallback_pixels().take(4 * i as int),
            decreases 4 - i,
        {
            let lit: u8 = if i == 0 || i == 3 {
                255
            } else {
                0
            };
            bytes.push(lit);
            bytes.push(0);
            bytes.push(lit);
            bytes.push(255);
            i = i + 1;
        }
        assert(fallback_pixels().take(16) =~= fallback_pixels());
        Texture { bytes, width: 2, height: 2 }
    }

    /// The texture made from a decoded image, or the fallback where there is none.
    pub fn create_texture(decoded: Option<(Vec<u8>, u32, u32)>) -> (t: Texture)
        ensures
            t@ == texture_of(
                match decoded {
                    Some((pixels, width, height)) => Some(DecodedImage { pixels: pixels@, width, height }),
                    None => None,
                },
            ),
    {
        match decoded {
            Some((pixels, width, height)) => {
                assert(width as u16 as u32 == width % 0x1_0000u32) by (bit_vector);
                assert(height as u16 as u32 == height % 0x1_0000u32) by (bit_vector);
                Texture {
                    bytes: pixels,
                    width: #[verifier::truncate] (width as u16),
                    height: #[verifier::truncate] (height as u16),
                }
            },
            None => Texture::fallback_texture(),
        }
    }

    /// The texture of a PNG file whose content is `bytes`, or the fallback
    /// texture where `bytes` are no PNG file.
    pub fn from_png(bytes: &[u8]) -> (t: Texture)
        ensures
            t@ == texture_of(png_rgba8(bytes@)),
    {
        Texture::create_texture(decode_png_rgba8(bytes))
    }
}

} // verus!
