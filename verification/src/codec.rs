//! The JPEG coder behind the container: decoding a stand-alone stream to
//! RGBA and encoding RGB samples as a baseline stream.
//!
//! Both are done by the `image` crate, as is the writing of PNG files,
//! through three wrappers whose contracts are taken on trust; each says above
//! its header what it claims of that crate. What is made of their results is
//! verified.
use crate::error::BlpError;
use crate::rgba::{sample_count, RgbaImage};
use vstd::prelude::*;

verus! {

/// The error type of the `image` crate, carried through unread.
#[verifier::external_type_specification]
#[verifier::external_body]
pub struct ExImageError(image::ImageError);

/// The bytes that `image::codecs::jpeg::JpegEncoder`, made with
/// `new_with_quality`, writes for `encode` on 8-bit RGB samples, or `None`
/// where it returns an error. The encoder works on its arguments alone, in
/// integer and single-precision arithmetic, so equal arguments give equal
/// bytes.
pub uninterp spec fn spec_jpeg_encoding(rgb: Seq<u8>, width: u32, height: u32, quality: u8) -> Option<Seq<u8>>;

/// Calls `image::codecs::jpeg::JpegEncoder::new_with_quality` on an empty
/// vector and then `encode` with the colour type `Rgb8`.
///
/// Trusted: the result is what `spec_jpeg_encoding` names. `encode` panics
/// when the buffer does not hold three bytes for each pixel, so callers must
/// rule that out.
#[verifier::external_body]
pub(crate) fn jpeg_encode_rgb(rgb: &[u8], width: u32, height: u32, quality: u8) -> (r: Result<
    Vec<u8>,
    image::ImageError,
>)
    requires
        rgb@.len() == 3 * width * height,
    ensures
        r matches Ok(v) ==> spec_jpeg_encoding(rgb@, width, height, quality) == Some(v@),
        r is Err ==> spec_jpeg_encoding(rgb@, width, height, quality) is None,
{
    let mut out: Vec<u8> = Vec::new();
    image::codecs::jpeg::JpegEncoder::new_with_quality(&mut out, quality).encode(
        rgb,
        width,
        height,
        image::ExtendedColorType::Rgb8,
    )?;
    Ok(out)
}

/// Calls `image::load_from_memory_with_format` with the JPEG format and
/// converts what it decoded with `DynamicImage::into_rgba8`.
///
/// Trusted: nothing. The decoder picks its arithmetic by the processor it
/// runs on, so its pixels get no name, and callers check the dimensions and
/// the length of what comes back.
#[verifier::external_body]
pub(crate) fn jpeg_decode_rgba(bytes: &[u8]) -> (r: Result<RgbaImage, image::ImageError>) {
    let decoded = image::load_from_memory_with_format(bytes, image::ImageFormat::Jpeg)?;
    let rgba = decoded.into_rgba8();
    Ok(RgbaImage { width: rgba.width(), height: rgba.height(), pixels: rgba.into_raw() })
}

/// Accepts decoded pixels when they have the expected dimensions and four
/// bytes for each pixel, and refuses them with `JpegDecode` otherwise.
pub fn accept_decoded(raw: RgbaImage, width: u32, height: u32) -> (r: Result<RgbaImage, BlpError>)
    ensures
        raw.width == width && raw.height == height && raw.wf() ==> r == Ok::<
            RgbaImage,
            BlpError,
        >(raw),
        !(raw.width == width && raw.height == height && raw.wf()) ==> r == Err::<
            RgbaImage,
            BlpError,
        >(BlpError::JpegDecode),
{
    if raw.width != width || raw.height != height {
        return Err(BlpError::JpegDecode);
    }
    let len: usize = raw.pixels.len();
    match sample_count(width, height, 4) {
        Some(want) => {
            if len != want {
                return Err(BlpError::JpegDecode);
            }
            Ok(raw)
        },
        None => Err(BlpError::JpegDecode),
    }
}

/// Decodes a stand-alone JPEG stream to RGBA pixels of the expected
/// dimensions. Every refusal of the decoder, and every result of another
/// size, is reported as `JpegDecode`.
pub fn decode_jpeg(bytes: &[u8], width: u32, height: u32) -> (r: Result<RgbaImage, BlpError>)
    ensures
        r matches Ok(img) ==> img.width == width && img.height == height && img.wf(),
        r matches Err(e) ==> e == BlpError::JpegDecode,
{
    match jpeg_decode_rgba(bytes) {
        Ok(raw) => accept_decoded(raw, width, height),
        Err(_) => Err(BlpError::JpegDecode),
    }
}

/// The bytes that `image::codecs::png::PngEncoder`, made with `new`, writes
/// for `write_image` on 8-bit RGBA samples, or `None` where it returns an
/// error. The encoder filters the rows and compresses them with the deflate
/// coder that the crate is built with; it reads nothing but its arguments and
/// computes in integers, so equal arguments give equal bytes.
pub uninterp spec fn spec_png_encoding(pixels: Seq<u8>, width: u32, height: u32) -> Option<Seq<u8>>;

/// Calls `image::codecs::png::PngEncoder::new` on an empty vector and then
/// `write_image` with the colour type `Rgba8`.
///
/// Trusted: the result is what `spec_png_encoding` names. `write_image`
/// panics when the buffer does not hold four bytes for each pixel, so
/// callers must rule that out.
#[verifier::external_body]
pub(crate) fn png_encode_rgba(pixels: &[u8], width: u32, height: u32) -> (r: Result<
    Vec<u8>,
    image::ImageError,
>)
    requires
        pixels@.len() == 4 * width * height,
    ensures
        r matches Ok(v) ==> spec_png_encoding(pixels@, width, height) == Some(v@),
        r is Err ==> spec_png_encoding(pixels@, width, height) is None,
{
    let mut out: Vec<u8> = Vec::new();
    image::ImageEncoder::write_image(
        image::codecs::png::PngEncoder::new(&mut out),
        pixels,
        width,
        height,
        image::ExtendedColorType::Rgba8,
    )?;
    Ok(out)
}

/// Encodes decoded pixels as a PNG file: the bytes are those that the PNG
/// encoder writes for the pixels and the dimensions of the image, and every
/// refusal of the encoder is reported as `PngEncode`.
pub fn export_png(img: &RgbaImage) -> (r: Result<Vec<u8>, BlpError>)
    requires
        img.wf(),
    ensures
        match spec_png_encoding(img.pixels@, img.width, img.height) {
            Some(bytes) => r is Ok && r->Ok_0@ == bytes,
            None => r is Err && r->Err_0 == BlpError::PngEncode,
        },
{
    match png_encode_rgba(img.pixels.as_slice(), img.width, img.height) {
        Ok(bytes) => Ok(bytes),
        Err(_) => Err(BlpError::PngEncode),
    }
}

} // verus!
