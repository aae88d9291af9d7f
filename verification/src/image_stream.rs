//! Recompression of an image stream as JPEG.

use crate::classify::{classify, spec_classify};
use crate::codec::{
    bytes_view, encode_jpeg, inflate, inflated, jpeg_encoding, raster_of, rgb_image, Raster, SampleLayout,
};
use crate::model::{
    gate, spec_gate, DictUpdate, FilterKind, FilterUpdate, OutcomeView, RecompressionOutcome,
    StreamClassification, StreamUnit,
};
use crate::pixels::{infer_layout, spec_infer_layout, spec_to_rgb, to_rgb, PixelLayout};
use crate::resample::{downsample, new_dimensions, spec_is_prepared, spec_new_dimensions};
use image::DynamicImage;
use vstd::prelude::*;

verus! {

/// The dictionary entries that follow a JPEG payload.
pub open spec fn spec_jpeg_update(dimensions: Option<(u32, u32)>) -> DictUpdate {
    DictUpdate { filter: FilterUpdate::Dct, device_rgb: true, dimensions }
}

/// The raw samples of an image stream: the inflated payload under the
/// deflate filter, what the container library decoded under another named
/// filter, and the payload itself where no single filter is named. An image
/// that is already lossy has none.
pub open spec fn spec_raw_samples(unit: StreamUnit) -> Option<Seq<u8>> {
    match unit.filter {
        FilterKind::Dct => None,
        FilterKind::Flate => inflated(unit.content@),
        FilterKind::Other | FilterKind::ImageOnly => bytes_view(unit.decoded),
        FilterKind::Absent | FilterKind::Chain => Some(unit.content@),
    }
}

/// The layout of the raw samples, where it can be read off their length and
/// the RGB form of the samples fits in memory.
pub open spec fn spec_usable_layout(raw: Seq<u8>, width: u32, height: u32) -> Option<PixelLayout> {
    match spec_infer_layout(raw.len(), width, height) {
        Some(PixelLayout::Gray) if raw.len() * 3 > usize::MAX => None,
        layout => layout,
    }
}

/// The image that a stream holds, in RGB, where its raw samples can be had
/// and their layout can be read off their length.
pub open spec fn spec_source_image(unit: StreamUnit, width: u32, height: u32) -> Option<Raster> {
    match spec_raw_samples(unit) {
        Some(raw) => match spec_usable_layout(raw, width, height) {
            Some(layout) => Some(
                Raster { layout: SampleLayout::Rgb8, width, height, samples: spec_to_rgb(raw, layout) },
            ),
            None => None,
        },
        None => None,
    }
}

/// What is decided for an image stream once the image that goes to the
/// encoder is settled: the JPEG file of that image passes the accept gate or
/// the stream is kept.
pub open spec fn spec_encoded_outcome(
    unit: StreamUnit,
    width: u32,
    height: u32,
    quality: u8,
    prepared: Raster,
) -> OutcomeView {
    match jpeg_encoding(prepared, quality) {
        Some(encoded) => spec_gate(
            encoded,
            unit.content@.len(),
            spec_jpeg_update(spec_new_dimensions(width, height, quality)),
        ),
        None => OutcomeView::Keep,
    }
}

/// Whether `outcome` is what the image recompressor decides for a stream:
/// a stream that is no image, or whose image cannot be had, is kept;
/// otherwise the outcome is that of encoding the image, brought down to the
/// target dimensions for the quality.
pub open spec fn spec_is_image_outcome(unit: StreamUnit, quality: u8, outcome: OutcomeView) -> bool {
    match spec_classify(unit) {
        StreamClassification::Image { width, height, .. } => match spec_source_image(unit, width, height) {
            Some(source) => exists|prepared: Raster| #[trigger]
                spec_is_prepared(source, quality, prepared) && outcome == spec_encoded_outcome(
                    unit,
                    width,
                    height,
                    quality,
                    prepared,
                ),
            None => outcome is Keep,
        },
        StreamClassification::Generic => outcome is Keep,
    }
}

/// Gets the raw samples of an image stream.
fn raw_samples(unit: &StreamUnit) -> (raw: Option<Vec<u8>>)
    ensures
        bytes_view(raw) == spec_raw_samples(*unit),
{
    match unit.filter {
        FilterKind::Dct => None,
        FilterKind::Flate => inflate(unit.content.as_slice()),
        FilterKind::Other | FilterKind::ImageOnly => match &unit.decoded {
            Some(decoded) => Some(decoded.clone()),
            None => None,
        },
        FilterKind::Absent | FilterKind::Chain => Some(unit.content.clone()),
    }
}

/// Reads the layout of raw samples off their length.
fn usable_layout(raw: &Vec<u8>, width: u32, height: u32) -> (layout: Option<PixelLayout>)
    ensures
        layout == spec_usable_layout(raw@, width, height),
{
    match infer_layout(raw.len(), width, height) {
        Some(PixelLayout::Gray) => {
            if raw.len() > usize::MAX / 3 {
                None
            } else {
                Some(PixelLayout::Gray)
            }
        },
        layout => layout,
    }
}

/// Builds the image of a stream, in RGB, from its raw samples.
fn source_image(unit: &StreamUnit, width: u32, height: u32) -> (source: Option<DynamicImage>)
    ensures
        match source {
            Some(image) => spec_source_image(*unit, width, height) == Some(raster_of(image)),
            None => spec_source_image(*unit, width, height) is None,
        },
{
    let raw = match raw_samples(unit) {
        Some(raw) => raw,
        None => {
            return None;
        },
    };
    let layout = match usable_layout(&raw, width, height) {
        Some(layout) => layout,
        None => {
            return None;
        },
    };
    let ghost raw_view = raw@;
    proof {
        assert(spec_to_rgb(raw_view, layout).len() == width as nat * height as nat * 3) by (nonlinear_arith)
            requires
                spec_to_rgb(raw_view, layout).len() == match layout {
                    PixelLayout::Rgb => raw_view.len() as int,
                    PixelLayout::Rgba => (raw_view.len() as int / 4) * 3,
                    PixelLayout::Gray => raw_view.len() as int * 3,
                },
                raw_view.len() == match layout {
                    PixelLayout::Rgb => width as nat * height as nat * 3,
                    PixelLayout::Rgba => width as nat * height as nat * 4,
                    PixelLayout::Gray => width as nat * height as nat,
                },
        ;
    }
    Some(rgb_image(width, height, to_rgb(raw, layout)))
}

/// Encodes the image that was settled on for a stream and passes the JPEG
/// file through the accept gate. `width` and `height` are the declared
/// dimensions of the stream.
pub fn encode_image_payload(
    unit: &StreamUnit,
    width: u32,
    height: u32,
    quality: u8,
    prepared: &DynamicImage,
) -> (outcome: RecompressionOutcome)
    ensures
        outcome@ == spec_encoded_outcome(*unit, width, height, quality, raster_of(*prepared)),
        outcome@.shrinks(unit.content@.len()),
{
    let dimensions = new_dimensions(width, height, quality);
    match encode_jpeg(prepared, quality) {
        Ok(bytes) => gate(
            bytes,
            unit.content.len(),
            DictUpdate { filter: FilterUpdate::Dct, device_rgb: true, dimensions },
        ),
        Err(_) => RecompressionOutcome::Keep,
    }
}

/// Recompresses an image stream: decodes the raw samples, reads their layout
/// off their length, converts them to RGB, downsamples where the quality
/// asks for it, encodes them as JPEG, and commits the result only if it is
/// strictly shorter than the payload. Whatever goes wrong on the way, the
/// stream is kept.
pub fn compress_image_stream(unit: &StreamUnit, quality: u8) -> (outcome: RecompressionOutcome)
    ensures
        spec_is_image_outcome(*unit, quality, outcome@),
        outcome@.shrinks(unit.content@.len()),
{
    let (width, height) = match classify(unit) {
        StreamClassification::Image { width, height, .. } => (width, height),
        StreamClassification::Generic => {
            return RecompressionOutcome::Keep;
        },
    };
    let source = match source_image(unit, width, height) {
        Some(source) => source,
        None => {
            return RecompressionOutcome::Keep;
        },
    };
    match downsample(&source, quality) {
        Some(smaller) => {
            let outcome = encode_image_payload(unit, width, height, quality, &smaller);
            assert(spec_is_prepared(raster_of(source), quality, raster_of(smaller)));
            outcome
        },
        None => {
            let outcome = encode_image_payload(unit, width, height, quality, &source);
            assert(spec_is_prepared(raster_of(source), quality, raster_of(source)));
            outcome
        },
    }
}

} // verus!
