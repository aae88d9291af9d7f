//! The byte compressor and the image codec library, seen through contracts.
//!
//! Each executable function in this file is a single call into an outside
//! codec whose contract is stated, not proved. Where
//! what a codec returns is a function of what it is given, the result has a
//! name that the contracts of the policy engine are stated over; how the
//! codecs compute their results is not described here.

use image::codecs::png::{CompressionType, FilterType, PngEncoder};
use image::{DynamicImage, ImageEncoder};
use std::io::{Read, Write};
use vstd::prelude::*;

verus! {

/// A decoded image of the codec library, opaque to the verifier.
#[verifier::external_type_specification]
#[verifier::external_body]
pub struct ExDynamicImage(image::DynamicImage);

/// The error of the codec library, opaque to the verifier.
#[verifier::external_type_specification]
#[verifier::external_body]
pub struct ExImageError(image::ImageError);

/// How the samples of a decoded image are laid out.
pub enum SampleLayout {
    Luma8,
    LumaAlpha8,
    Rgb8,
    Rgba8,
    Luma16,
    LumaAlpha16,
    Rgb16,
    Rgba16,
    Rgb32F,
    Rgba32F,
}

/// What a decoded image holds: its layout, its dimensions and its samples as
/// bytes, row by row.
pub struct Raster {
    pub layout: SampleLayout,
    pub width: u32,
    pub height: u32,
    pub samples: Seq<u8>,
}

/// What kind of file an image came from, as far as the pipeline cares.
#[derive(Clone, Copy, Debug, PartialEq, Eq, Structural)]
pub enum SourceKind {
    Jpeg,
    WebP,
    /// Any other format that the codec library knows.
    Other,
}

/// Compression effort of the lossless encoder.
#[derive(Clone, Copy, Debug, PartialEq, Eq, Structural)]
pub enum LosslessEffort {
    Best,
    Default,
    Fast,
}

/// How the lossless encoder filters each row of samples before it
/// compresses them.
#[derive(Clone, Copy, Debug, PartialEq, Eq, Structural)]
pub enum RowFilter {
    NoFilter,
    Sub,
    Up,
    Average,
    Paeth,
    /// One of the others for each row, chosen by a heuristic.
    Adaptive,
}

/// The kernel by which an image is resampled.
#[derive(Clone, Copy, Debug, PartialEq, Eq, Structural)]
pub enum Resampling {
    Nearest,
    Triangle,
    CatmullRom,
    Gaussian,
    Lanczos3,
}

/// The contents of a decoded image.
pub uninterp spec fn raster_of(image: DynamicImage) -> Raster;

/// The zlib stream that the byte compressor writes for `data` at `level`.
pub uninterp spec fn deflated(data: Seq<u8>, level: u32) -> Option<Seq<u8>>;

/// The bytes that a zlib stream inflates to, or `None` where it is damaged.
pub uninterp spec fn inflated(data: Seq<u8>) -> Option<Seq<u8>>;

/// The kind of image file that the leading bytes announce.
pub uninterp spec fn detected_kind(bytes: Seq<u8>) -> Option<SourceKind>;

/// The image that an encoded file decodes to.
pub uninterp spec fn decoded_raster(bytes: Seq<u8>) -> Option<Raster>;

/// The baseline JPEG file for an image at `quality`.
pub uninterp spec fn jpeg_encoding(source: Raster, quality: u8) -> Option<Seq<u8>>;

/// The PNG file for an image at `effort`, with its rows filtered by `filter`.
pub uninterp spec fn png_encoding(source: Raster, effort: LosslessEffort, filter: RowFilter) -> Option<Seq<u8>>;

/// The lossless WebP file for an image.
pub uninterp spec fn webp_encoding(source: Raster) -> Option<Seq<u8>>;

/// The view of an optional byte buffer.
pub open spec fn bytes_view(bytes: Option<Vec<u8>>) -> Option<Seq<u8>> {
    match bytes {
        Some(b) => Some(b@),
        None => None,
    }
}

/// `flate2::write::ZlibEncoder` at `Compression::new(level)`: writes all of
/// `data` and finishes the stream.
#[verifier::external_body]
pub(crate) fn deflate(data: &[u8], level: u32) -> (packed: Option<Vec<u8>>)
    requires
        level <= 9,
    ensures
        bytes_view(packed) == deflated(data@, level),
{
    let mut encoder = flate2::write::ZlibEncoder::new(Vec::new(), flate2::Compression::new(level));
    encoder.write_all(data).ok()?;
    encoder.finish().ok()
}

/// `flate2::read::ZlibDecoder`: reads a zlib stream to its end.
#[verifier::external_body]
pub(crate) fn inflate(data: &[u8]) -> (raw: Option<Vec<u8>>)
    ensures
        bytes_view(raw) == inflated(data@),
{
    let mut raw = Vec::new();
    flate2::read::ZlibDecoder::new(data).read_to_end(&mut raw).ok().map(|_| raw)
}

/// `image::guess_format`: the format that the leading bytes announce, told
/// apart only as far as the pipeline cares, or the codec library's error
/// where they announce none.
#[verifier::external_body]
pub(crate) fn detect_kind(bytes: &[u8]) -> (kind: Result<SourceKind, image::ImageError>)
    ensures
        match kind {
            Ok(found) => detected_kind(bytes@) == Some(found),
            Err(_) => detected_kind(bytes@) is None,
        },
{
    match image::guess_format(bytes) {
        Ok(image::ImageFormat::Jpeg) => Ok(SourceKind::Jpeg),
        Ok(image::ImageFormat::WebP) => Ok(SourceKind::WebP),
        Ok(_) => Ok(SourceKind::Other),
        Err(error) => Err(error),
    }
}

/// `image::load_from_memory`: decodes an image file.
#[verifier::external_body]
pub(crate) fn decode_image(bytes: &[u8]) -> (decoded: Result<DynamicImage, image::ImageError>)
    ensures
        match decoded {
            Ok(image) => decoded_raster(bytes@) == Some(raster_of(image)),
            Err(_) => decoded_raster(bytes@) is None,
        },
{
    image::load_from_memory(bytes)
}

/// `Display` of the codec library's error: its message, of which nothing is
/// claimed.
#[verifier::external_body]
pub(crate) fn image_error_text(error: &image::ImageError) -> (text: String) {
    format!("{}", error)
}

/// `DynamicImage::width` and `DynamicImage::height`.
#[verifier::external_body]
pub(crate) fn image_dimensions(image: &DynamicImage) -> (size: (u32, u32))
    ensures
        size.0 == raster_of(*image).width,
        size.1 == raster_of(*image).height,
{
    (image.width(), image.height())
}

/// `RgbImage::from_raw`: an image of 8-bit RGB samples over a buffer of
/// exactly `width * height * 3` bytes.
#[verifier::external_body]
pub(crate) fn rgb_image(width: u32, height: u32, samples: Vec<u8>) -> (image: DynamicImage)
    requires
        samples@.len() == width as nat * height as nat * 3,
    ensures
        raster_of(image) == (Raster { layout: SampleLayout::Rgb8, width, height, samples: samples@ }),
{
    DynamicImage::ImageRgb8(image::RgbImage::from_raw(width, height, samples).unwrap_or_default())
}

/// `DynamicImage::resize_exact`: an image of the asked dimensions in the
/// layout of the source. The kernels are computed in floating point, one of
/// them with a sine, so nothing is claimed of the samples.
#[verifier::external_body]
pub(crate) fn resize_image(image: &DynamicImage, width: u32, height: u32, kernel: Resampling) -> (resized:
    DynamicImage)
    ensures
        raster_of(resized).width == width,
        raster_of(resized).height == height,
        raster_of(resized).layout == raster_of(*image).layout,
{
    let filter = match kernel {
        Resampling::Nearest => image::imageops::FilterType::Nearest,
        Resampling::Triangle => image::imageops::FilterType::Triangle,
        Resampling::CatmullRom => image::imageops::FilterType::CatmullRom,
        Resampling::Gaussian => image::imageops::FilterType::Gaussian,
        Resampling::Lanczos3 => image::imageops::FilterType::Lanczos3,
    };
    image.resize_exact(width, height, filter)
}

/// `JpegEncoder::new_with_quality` and `encode_image` into a fresh buffer.
#[verifier::external_body]
pub(crate) fn encode_jpeg(image: &DynamicImage, quality: u8) -> (encoded: Result<Vec<u8>, image::ImageError>)
    ensures
        match encoded {
            Ok(bytes) => jpeg_encoding(raster_of(*image), quality) == Some(bytes@),
            Err(_) => jpeg_encoding(raster_of(*image), quality) is None,
        },
{
    let mut output = Vec::new();
    let mut encoder = image::codecs::jpeg::JpegEncoder::new_with_quality(&mut output, quality);
    encoder.encode_image(image).map(|_| output)
}

/// `PngEncoder::new_with_quality` and `write_image` into a fresh buffer.
#[verifier::external_body]
pub(crate) fn encode_png(image: &DynamicImage, effort: LosslessEffort, filter: RowFilter) -> (encoded: Result<
    Vec<u8>,
    image::ImageError,
>)
    ensures
        match encoded {
            Ok(bytes) => png_encoding(raster_of(*image), effort, filter) == Some(bytes@),
            Err(_) => png_encoding(raster_of(*image), effort, filter) is None,
        },
{
    let compression = match effort {
        LosslessEffort::Best => CompressionType::Best,
        LosslessEffort::Default => CompressionType::Default,
        LosslessEffort::Fast => CompressionType::Fast,
    };
    let rows = match filter {
        RowFilter::NoFilter => FilterType::NoFilter,
        RowFilter::Sub => FilterType::Sub,
        RowFilter::Up => FilterType::Up,
        RowFilter::Average => FilterType::Avg,
        RowFilter::Paeth => FilterType::Paeth,
        RowFilter::Adaptive => FilterType::Adaptive,
    };
    let mut output = Vec::new();
    PngEncoder::new_with_quality(&mut output, compression, rows).write_image(image.as_bytes(), image.width(), image.height(), image.color()).map(|_| output)
}

/// `WebPEncoder::new_lossless` and `write_image` into a fresh buffer.
#[verifier::external_body]
pub(crate) fn encode_webp(image: &DynamicImage) -> (encoded: Result<Vec<u8>, image::ImageError>)
    ensures
        match encoded {
            Ok(bytes) => webp_encoding(raster_of(*image)) == Some(bytes@),
            Err(_) => webp_encoding(raster_of(*image)) is None,
        },
{
    let mut output = Vec::new();
    let encoder = image::codecs::webp::WebPEncoder::new_lossless(&mut output);
    image::ImageEncoder::write_image(encoder, image.as_bytes(), image.width(), image.height(), image.color()).map(|_| output)
}

} // verus!
