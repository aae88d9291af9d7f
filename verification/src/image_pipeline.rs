//! The standalone image pipeline: detect and decode the input, settle the
//! output format, and encode at the quality for the requested level.

use crate::codec::{
    decode_image, decoded_raster, detect_kind, detected_kind, encode_jpeg, encode_png, encode_webp,
    image_error_text, jpeg_encoding, png_encoding, raster_of, webp_encoding, LosslessEffort, Raster, RowFilter,
    SourceKind,
};
use crate::error::{starts_with, with_lead, CompressionError};
use crate::quality::{level_to_quality, spec_level_to_quality};
use crate::resample::{downsample, spec_is_prepared};
use crate::text::{lowercased, to_lowercase};
use image::DynamicImage;
use vstd::prelude::*;
use vstd::string::*;

verus! {

/// The formats that an image can be written in.
#[derive(Clone, Copy, Debug, PartialEq, Eq, Structural)]
pub enum TargetFormat {
    Jpeg,
    Png,
    WebP,
}

/// What decides the output format of a call.
#[derive(Clone, Copy, Debug, PartialEq, Eq, Structural)]
pub enum FormatChoice {
    /// One format, named by the caller or implied by a lossy source.
    Fixed(TargetFormat),
    /// A lossless source without a request: both JPEG and PNG are tried.
    Smaller,
}

/// The file extension that goes with a format.
pub open spec fn spec_extension(format: TargetFormat) -> Seq<char> {
    match format {
        TargetFormat::Jpeg => "jpg"@,
        TargetFormat::Png => "png"@,
        TargetFormat::WebP => "webp"@,
    }
}

/// The format that a name stands for, once the name is in lowercase.
pub open spec fn spec_format_named(lowered: Seq<char>) -> Option<TargetFormat> {
    if lowered == "jpg"@ || lowered == "jpeg"@ {
        Some(TargetFormat::Jpeg)
    } else if lowered == "png"@ {
        Some(TargetFormat::Png)
    } else if lowered == "webp"@ {
        Some(TargetFormat::WebP)
    } else {
        None
    }
}

/// The effort of the lossless encoder at a quality: the higher the quality,
/// the more effort.
pub open spec fn spec_lossless_effort(quality: u8) -> LosslessEffort {
    if quality >= 90 {
        LosslessEffort::Best
    } else if quality >= 70 {
        LosslessEffort::Default
    } else {
        LosslessEffort::Fast
    }
}

/// The file that encoding a prepared image in a format at a quality gives.
pub open spec fn spec_encoding(prepared: Raster, quality: u8, format: TargetFormat) -> Option<Seq<u8>> {
    match format {
        TargetFormat::Jpeg => jpeg_encoding(prepared, quality),
        TargetFormat::Png => png_encoding(prepared, spec_lossless_effort(quality), RowFilter::Adaptive),
        TargetFormat::WebP => webp_encoding(prepared),
    }
}

/// Whether `encoded` is what encoding `prepared` gives: the file, or a
/// failure to serialize where the encoder gives none.
pub open spec fn spec_is_encoding(
    prepared: Raster,
    quality: u8,
    format: TargetFormat,
    encoded: Result<Vec<u8>, CompressionError>,
) -> bool {
    match encoded {
        Ok(bytes) => spec_encoding(prepared, quality, format) == Some(bytes@),
        Err(error) => error is SerializeFailed && spec_encoding(prepared, quality, format) is None,
    }
}

/// Whether the lossless candidate is preferred: it is, if it is at most a
/// tenth longer than the lossy one.
pub open spec fn spec_prefers_lossless(lossy_len: nat, lossless_len: nat) -> bool {
    lossless_len * 10 <= lossy_len * 11
}

/// The pick among the two candidates of a lossless source: the lossless one
/// where it is preferred, the lossy one otherwise; where only one candidate
/// exists, that one; where none does, nothing.
pub open spec fn spec_pick(lossy: Option<Seq<u8>>, lossless: Option<Seq<u8>>) -> Option<(Seq<u8>, TargetFormat)> {
    match (lossy, lossless) {
        (Some(jpeg), Some(png)) => if spec_prefers_lossless(jpeg.len(), png.len()) {
            Some((png, TargetFormat::Png))
        } else {
            Some((jpeg, TargetFormat::Jpeg))
        },
        (Some(jpeg), None) => Some((jpeg, TargetFormat::Jpeg)),
        (None, Some(png)) => Some((png, TargetFormat::Png)),
        (None, None) => None,
    }
}

/// What decides the output format: the request where there is one and it
/// names a format, JPEG for a source that is a JPEG or WebP file, the
/// smaller-candidate rule for any other source. An unknown name decides
/// nothing.
pub open spec fn spec_format_choice(kind: SourceKind, requested: Option<Seq<char>>) -> Option<FormatChoice> {
    match requested {
        Some(name) => match spec_format_named(lowercased(name)) {
            Some(format) => Some(FormatChoice::Fixed(format)),
            None => None,
        },
        None => match kind {
            SourceKind::Jpeg | SourceKind::WebP => Some(FormatChoice::Fixed(TargetFormat::Jpeg)),
            SourceKind::Other => Some(FormatChoice::Smaller),
        },
    }
}

/// Whether a result is the one that belongs to an output: the file with
/// the extension of its format, or a failure to serialize where there is no
/// file.
pub open spec fn spec_result_of(
    output: Option<(Seq<u8>, TargetFormat)>,
    result: Result<(Vec<u8>, String), CompressionError>,
) -> bool {
    match output {
        Some((bytes, format)) => result matches Ok((data, extension)) && data@ == bytes && extension@
            == spec_extension(format),
        None => result matches Err(CompressionError::SerializeFailed(_)),
    }
}

/// The output of a single format: the file that encoding the prepared image
/// gives.
pub open spec fn spec_fixed_output(prepared: Raster, quality: u8, format: TargetFormat) -> Option<
    (Seq<u8>, TargetFormat),
> {
    match spec_encoding(prepared, quality, format) {
        Some(bytes) => Some((bytes, format)),
        None => None,
    }
}

/// Whether a result is what encoding a decoded image under a choice gives.
/// The image is brought down to the target dimensions for the quality
/// before each encoding.
pub open spec fn spec_is_output(
    source: Raster,
    quality: u8,
    choice: FormatChoice,
    result: Result<(Vec<u8>, String), CompressionError>,
) -> bool {
    match choice {
        FormatChoice::Fixed(format) => exists|prepared: Raster| #[trigger]
            spec_is_prepared(source, quality, prepared) && spec_result_of(
                spec_fixed_output(prepared, quality, format),
                result,
            ),
        FormatChoice::Smaller => exists|lossy: Raster, lossless: Raster|
            #![trigger spec_is_prepared(source, quality, lossy), spec_is_prepared(source, quality, lossless)]
            spec_is_prepared(source, quality, lossy) && spec_is_prepared(source, quality, lossless)
                && spec_result_of(
                spec_pick(
                    spec_encoding(lossy, quality, TargetFormat::Jpeg),
                    spec_encoding(lossless, quality, TargetFormat::Png),
                ),
                result,
            ),
    }
}

/// Whether a result is what a call on an image gives. The input is checked
/// for emptiness, then detected, then decoded, then the request is checked,
/// then the image is encoded; the first step that fails decides the error.
pub open spec fn spec_image_result(
    input: Seq<u8>,
    level: u8,
    requested: Option<Seq<char>>,
    result: Result<(Vec<u8>, String), CompressionError>,
) -> bool {
    if input.len() == 0 {
        result matches Err(CompressionError::EmptyInput)
    } else {
        match detected_kind(input) {
            None => result matches Err(CompressionError::ParseFailed(text)) && starts_with(
                text@,
                "Failed to detect image format: "@,
            ),
            Some(kind) => match decoded_raster(input) {
                None => result matches Err(CompressionError::ParseFailed(text)) && starts_with(
                    text@,
                    "Failed to load image: "@,
                ),
                Some(source) => match spec_format_choice(kind, requested) {
                    None => result matches Err(CompressionError::UnsupportedFormat(text)) && requested matches Some(
                        name,
                    ) && text@ == "Unsupported output format: "@ + name,
                    Some(choice) => spec_is_output(source, spec_level_to_quality(level) as u8, choice, result),
                },
            },
        }
    }
}

/// The view of an optional name.
pub open spec fn spec_requested(output_format: Option<&str>) -> Option<Seq<char>> {
    match output_format {
        Some(name) => Some(name@),
        None => None,
    }
}

/// The file extension that goes with a format.
pub fn extension(format: TargetFormat) -> (text: String)
    ensures
        text@ == spec_extension(format),
{
    match format {
        TargetFormat::Jpeg => String::from_str("jpg"),
        TargetFormat::Png => String::from_str("png"),
        TargetFormat::WebP => String::from_str("webp"),
    }
}

/// Reads a format name, whatever its case: `jpg` or `jpeg`, `png`, `webp`.
pub fn parse_target_format(name: &str) -> (format: Option<TargetFormat>)
    ensures
        format == spec_format_named(lowercased(name@)),
{
    let lowered = to_lowercase(name);
    if lowered == String::from_str("jpg") || lowered == String::from_str("jpeg") {
        Some(TargetFormat::Jpeg)
    } else if lowered == String::from_str("png") {
        Some(TargetFormat::Png)
    } else if lowered == String::from_str("webp") {
        Some(TargetFormat::WebP)
    } else {
        None
    }
}

/// The effort of the lossless encoder at a quality.
pub fn lossless_effort(quality: u8) -> (effort: LosslessEffort)
    ensures
        effort == spec_lossless_effort(quality),
{
    if quality >= 90 {
        LosslessEffort::Best
    } else if quality >= 70 {
        LosslessEffort::Default
    } else {
        LosslessEffort::Fast
    }
}

/// Settles what decides the output format.
pub fn format_choice(kind: SourceKind, output_format: Option<&str>) -> (choice: Option<FormatChoice>)
    ensures
        choice == spec_format_choice(kind, spec_requested(output_format)),
{
    match output_format {
        Some(name) => match parse_target_format(name) {
            Some(format) => Some(FormatChoice::Fixed(format)),
            None => None,
        },
        None => match kind {
            SourceKind::Jpeg => Some(FormatChoice::Fixed(TargetFormat::Jpeg)),
            SourceKind::WebP => Some(FormatChoice::Fixed(TargetFormat::Jpeg)),
            SourceKind::Other => Some(FormatChoice::Smaller),
        },
    }
}

/// Encodes an image as it is, in a format at a quality.
pub fn encode_prepared(image: &DynamicImage, quality: u8, format: TargetFormat) -> (encoded: Result<
    Vec<u8>,
    CompressionError,
>)
    ensures
        spec_is_encoding(raster_of(*image), quality, format, encoded),
{
    match format {
        TargetFormat::Jpeg => match encode_jpeg(image, quality) {
            Ok(bytes) => Ok(bytes),
            Err(error) => Err(
                CompressionError::SerializeFailed(
                    with_lead("JPEG encoding failed: ", image_error_text(&error).as_str()),
                ),
            ),
        },
        TargetFormat::Png => match encode_png(image, lossless_effort(quality), RowFilter::Adaptive) {
            Ok(bytes) => Ok(bytes),
            Err(error) => Err(
                CompressionError::SerializeFailed(
                    with_lead("PNG encoding failed: ", image_error_text(&error).as_str()),
                ),
            ),
        },
        TargetFormat::WebP => match encode_webp(image) {
            Ok(bytes) => Ok(bytes),
            Err(error) => Err(
                CompressionError::SerializeFailed(
                    with_lead("WebP encoding failed: ", image_error_text(&error).as_str()),
                ),
            ),
        },
    }
}

/// Encodes an image in a format at a quality. The image is first brought
/// down to the target dimensions for the quality, by the same rule as for
/// the images of a document.
pub fn encode_image_with_quality(image: &DynamicImage, quality: u8, format: TargetFormat) -> (encoded: Result<
    Vec<u8>,
    CompressionError,
>)
    ensures
        exists|prepared: Raster| #[trigger]
            spec_is_prepared(raster_of(*image), quality, prepared) && spec_is_encoding(
                prepared,
                quality,
                format,
                encoded,
            ),
{
    match downsample(image, quality) {
        Some(smaller) => {
            let encoded = encode_prepared(&smaller, quality, format);
            assert(spec_is_prepared(raster_of(*image), quality, raster_of(smaller)));
            encoded
        },
        None => {
            let encoded = encode_prepared(image, quality, format);
            assert(spec_is_prepared(raster_of(*image), quality, raster_of(*image)));
            encoded
        },
    }
}

/// Picks among the candidates of a lossless source: the lossless one if it
/// is at most a tenth longer than the lossy one, else the lossy one; the one
/// that exists where the other failed; a failure where both failed.
pub fn pick_candidate(
    lossy: Result<Vec<u8>, CompressionError>,
    lossless: Result<Vec<u8>, CompressionError>,
) -> (picked: Result<(Vec<u8>, TargetFormat), CompressionError>)
    ensures
        match picked {
            Ok((bytes, format)) => spec_pick(spec_candidate(lossy), spec_candidate(lossless)) == Some(
                (bytes@, format),
            ),
            Err(error) => error is SerializeFailed && spec_pick(spec_candidate(lossy), spec_candidate(lossless))
                is None,
        },
{
    match (lossy, lossless) {
        (Ok(jpeg), Ok(png)) => {
            if (png.len() as u128) * 10 <= (jpeg.len() as u128) * 11 {
                Ok((png, TargetFormat::Png))
            } else {
                Ok((jpeg, TargetFormat::Jpeg))
            }
        },
        (Ok(jpeg), Err(_)) => Ok((jpeg, TargetFormat::Jpeg)),
        (Err(_), Ok(png)) => Ok((png, TargetFormat::Png)),
        (Err(first), Err(second)) => {
            let both = with_lead(first.message().as_str(), " / ");
            let text = with_lead(both.as_str(), second.message().as_str());
            Err(CompressionError::SerializeFailed(with_lead("Both JPEG and PNG encoding failed: ", text.as_str())))
        },
    }
}

/// The file of a candidate, where encoding it worked.
pub open spec fn spec_candidate(candidate: Result<Vec<u8>, CompressionError>) -> Option<Seq<u8>> {
    match candidate {
        Ok(bytes) => Some(bytes@),
        Err(_) => None,
    }
}

/// Compresses an image given as bytes. The level is clamped and mapped to a
/// quality. The output format is the requested one; without a request a
/// lossy source is written as JPEG, and for a lossless source both JPEG and
/// PNG are encoded and the PNG is taken if it is at most a tenth longer than
/// the JPEG. Returns the encoded file and its file extension.
pub fn compress_image_bytes(input_bytes: &[u8], compression_level: u8, output_format: Option<&str>) -> (result:
    Result<(Vec<u8>, String), CompressionError>)
    ensures
        spec_image_result(input_bytes@, compression_level, spec_requested(output_format), result),
{
    if input_bytes.len() == 0 {
        return Err(CompressionError::EmptyInput);
    }
    let quality: u8 = level_to_quality(compression_level);
    let kind = match detect_kind(input_bytes) {
        Ok(kind) => kind,
        Err(error) => {
            return Err(
                CompressionError::ParseFailed(
                    with_lead("Failed to detect image format: ", image_error_text(&error).as_str()),
                ),
            );
        },
    };
    let image = match decode_image(input_bytes) {
        Ok(image) => image,
        Err(error) => {
            return Err(
                CompressionError::ParseFailed(
                    with_lead("Failed to load image: ", image_error_text(&error).as_str()),
                ),
            );
        },
    };
    let choice = match format_choice(kind, output_format) {
        Some(choice) => choice,
        None => {
            match output_format {
                Some(name) => {
                    return Err(
                        CompressionError::UnsupportedFormat(with_lead("Unsupported output format: ", name)),
                    );
                },
                None => {
                    return Err(
                        CompressionError::UnsupportedFormat(with_lead("Unsupported output format: ", "")),
                    );
                },
            }
        },
    };
    let ghost source = raster_of(image);
    match choice {
        FormatChoice::Fixed(format) => {
            let encoded = encode_image_with_quality(&image, quality, format);
            let ghost prepared = choose|prepared: Raster| #[trigger]
                spec_is_prepared(source, quality, prepared) && spec_is_encoding(
                    prepared,
                    quality,
                    format,
                    encoded,
                );
            let result = match encoded {
                Ok(bytes) => Ok((bytes, extension(format))),
                Err(error) => Err(error),
            };
            assert(spec_is_prepared(source, quality, prepared) && spec_result_of(
                spec_fixed_output(prepared, quality, format),
                result,
            ));
            result
        },
        FormatChoice::Smaller => {
            let jpeg = encode_image_with_quality(&image, quality, TargetFormat::Jpeg);
            let ghost lossy = choose|prepared: Raster| #[trigger]
                spec_is_prepared(source, quality, prepared) && spec_is_encoding(
                    prepared,
                    quality,
                    TargetFormat::Jpeg,
                    jpeg,
                );
            let png = encode_image_with_quality(&image, quality, TargetFormat::Png);
            let ghost lossless = choose|prepared: Raster| #[trigger]
                spec_is_prepared(source, quality, prepared) && spec_is_encoding(
                    prepared,
                    quality,
                    TargetFormat::Png,
                    png,
                );
            let result = match pick_candidate(jpeg, png) {
                Ok((bytes, format)) => Ok((bytes, extension(format))),
                Err(error) => Err(error),
            };
            assert(spec_is_prepared(source, quality, lossy) && spec_is_prepared(source, quality, lossless)
                && spec_result_of(
                spec_pick(
                    spec_encoding(lossy, quality, TargetFormat::Jpeg),
                    spec_encoding(lossless, quality, TargetFormat::Png),
                ),
                result,
            ));
            result
        },
    }
}

} // verus!
