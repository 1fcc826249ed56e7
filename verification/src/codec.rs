//! The image codec: PNG decoding, Lanczos resampling and PNG encoding.
//!
//! All three are done by the `image` crate. What this module states about
//! them is taken on trust from that crate; nothing here is proved.

use image::DynamicImage;
use image::ImageError;
use vstd::prelude::*;

verus! {

/// `image::DynamicImage`: a decoded image of any pixel layout. Opaque here.
#[verifier::external_type_specification]
#[verifier::external_body]
pub struct ExDynamicImage(image::DynamicImage);

/// `image::ImageError`: why the codec refused. Opaque here.
#[verifier::external_type_specification]
#[verifier::external_body]
pub struct ExImageError(image::ImageError);

/// What the decoder makes of `bytes`, as far as this library looks at it:
/// `None` where `bytes` is no PNG stream that the decoder accepts within its
/// default memory limits, else the width of the decoded image in pixels and
/// whether its samples are integers.
pub uninterp spec fn png_image(bytes: Seq<u8>) -> Option<(nat, bool)>;

/// The width in pixels of a decoded image.
pub uninterp spec fn image_width(image: DynamicImage) -> nat;

/// Whether the samples of a decoded image are integers of 8 or 16 bits, as
/// opposed to floating-point numbers.
pub uninterp spec fn has_integer_samples(image: DynamicImage) -> bool;

/// The PNG stream that the encoder writes for an RGBA raster with eight bits
/// per channel, or `None` where it refuses the raster.
pub uninterp spec fn png_encoding(width: nat, height: nat, samples: Seq<u8>) -> Option<Seq<u8>>;

/// `image::load_from_memory_with_format` with `ImageFormat::Png`.
///
/// Decoding reads nothing but `bytes`, so whether it succeeds, and how wide
/// the image is and what kind of samples it has, depends on `bytes` alone.
/// The pixels of the decoded image are left unspecified.
#[verifier::external_body]
pub(crate) fn decode_png(bytes: &Vec<u8>) -> (decoded: Result<DynamicImage, ImageError>)
    ensures
        match decoded {
            Ok(image) => png_image(bytes@) == Some((image_width(image), has_integer_samples(image))),
            Err(_) => png_image(bytes@) is None,
        },
{
    image::load_from_memory_with_format(bytes, image::ImageFormat::Png)
}

/// `DynamicImage::width`, which reports the width of the image it is called on.
pub assume_specification[ image::DynamicImage::width ](image: &DynamicImage) -> (width: u32)
    ensures
        width == image_width(*image),
;

/// `DynamicImage::color`, reduced to whether the layout it reports has
/// integer samples. The two floating-point layouts have not, and neither is
/// a layout counted that this version of the codec does not know.
#[verifier::external_body]
pub(crate) fn integer_samples(image: &DynamicImage) -> (yes: bool)
    ensures
        yes == has_integer_samples(*image),
{
    match image.color() {
        image::ColorType::L8 => true,
        image::ColorType::La8 => true,
        image::ColorType::Rgb8 => true,
        image::ColorType::Rgba8 => true,
        image::ColorType::L16 => true,
        image::ColorType::La16 => true,
        image::ColorType::Rgb16 => true,
        image::ColorType::Rgba16 => true,
        image::ColorType::Rgb32F => false,
        image::ColorType::Rgba32F => false,
        _ => false,
    }
}

/// `image::imageops::resize` with `FilterType::Lanczos3`, handing back the
/// samples of the RGBA buffer it returns.
///
/// The call reads every pixel of `image` as RGBA with eight bits per channel.
/// For floating-point samples that conversion panics on a value that is not
/// a number, so only images with integer samples are admitted. The call
/// allocates an intermediate buffer as wide as `image` and `height` rows
/// high, with four 32-bit floats to the pixel, then the result of `width` by
/// `height` pixels with four bytes to the pixel. It panics when either is
/// larger than a vector can be, which the preconditions rule out. The result
/// always has the requested size. Its pixel values come out of
/// floating-point arithmetic and are left unspecified.
#[verifier::external_body]
pub(crate) fn resize_lanczos3(image: &DynamicImage, width: u32, height: u32) -> (samples: Vec<u8>)
    requires
        has_integer_samples(*image),
        16 * (image_width(*image) * height) <= isize::MAX,
        4 * (width * height) <= isize::MAX,
    ensures
        samples@.len() == 4 * (width * height),
{
    image::imageops::resize(image, width, height, image::imageops::FilterType::Lanczos3).into_raw()
}

/// `image::write_buffer_with_format` with `ColorType::Rgba8` and
/// `ImageOutputFormat::Png`, writing into memory.
///
/// The encoder panics unless `samples` holds exactly four bytes for each of
/// the `width * height` pixels. What it writes depends on the raster alone.
#[verifier::external_body]
pub(crate) fn encode_png(samples: &Vec<u8>, width: u32, height: u32) -> (encoded: Result<
    Vec<u8>,
    ImageError,
>)
    requires
        samples@.len() == 4 * (width * height),
    ensures
        match encoded {
            Ok(bytes) => png_encoding(width as nat, height as nat, samples@) == Some(bytes@),
            Err(_) => png_encoding(width as nat, height as nat, samples@) is None,
        },
{
    let mut out = std::io::Cursor::new(Vec::new());
    let written = image::write_buffer_with_format(
        &mut out,
        samples,
        width,
        height,
        image::ColorType::Rgba8,
        image::ImageOutputFormat::Png,
    );
    match written {
        Ok(()) => Ok(out.into_inner()),
        Err(error) => Err(error),
    }
}

} // verus!
