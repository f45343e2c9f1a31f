//! The PNG of a part of a screenshot.
use vstd::prelude::*;

use crate::raster::Crop;

verus! {

/// What went wrong with an image.
#[verifier::external_type_specification]
#[verifier::external_body]
pub struct ExImageError(image::ImageError);

/// The bytes of the PNG of an RGBA image with a pixel or more, by `image`'s `PngEncoder`.
pub uninterp spec fn png_of(rgba: Seq<u8>, width: u32, height: u32) -> Seq<u8>;

/// `image::codecs::png::PngEncoder::write_image` encodes an image of the colour type `Rgba8` into a
/// vector, from its bytes and its size alone. It asks for as many bytes as the size says, and fails
/// where a side is zero. Of the bytes that it writes nothing more is stated.
#[verifier::external_body]
fn write_image(rgba: &[u8], width: u32, height: u32) -> (r: Result<Vec<u8>, image::ImageError>)
    requires
        rgba@.len() == width * height * 4,
    ensures
        r is Ok == (width > 0 && height > 0),
        r matches Ok(bytes) ==> bytes@ == png_of(rgba@, width, height),
{
    let mut bytes: Vec<u8> = Vec::new();
    let encoder = image::codecs::png::PngEncoder::new(&mut bytes);
    let color = image::ColorType::Rgba8.into();
    image::ImageEncoder::write_image(encoder, rgba, width, height, color)?;
    Ok(bytes)
}

/// An image without a pixel, which has no PNG.
#[derive(Debug, Clone, Copy, PartialEq, Eq, Structural)]
pub struct EmptyImage;

/// Encodes a part of a screenshot as PNG.
pub fn encode_png(crop: &Crop) -> (r: Result<Vec<u8>, EmptyImage>)
    requires
        crop.rgba@.len() == crop.width * crop.height * 4,
    ensures
        if crop.width > 0 && crop.height > 0 {
            r matches Ok(bytes) && bytes@ == png_of(crop.rgba@, crop.width, crop.height)
        } else {
            r == Err::<Vec<u8>, EmptyImage>(EmptyImage)
        },
{
    match write_image(crop.rgba.as_slice(), crop.width, crop.height) {
        Ok(bytes) => Ok(bytes),
        Err(_) => Err(EmptyImage),
    }
}

} // verus!
